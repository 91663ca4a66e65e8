//! The grammar the parser reads, as functions from a token sequence and a
//! position to what is read there and where reading stops, or to the error.
//! Syntax trees are seen through views in which lists are sequences.
use vstd::prelude::*;
use crate::ast::{Param, TypeExpr, Expr, ExprS, Binding, CaseArm, UnaryOp, BinaryOp};
use crate::lexer::{Span, Token, TokenKind};
use super::error::ParseError;

verus! {

/// A parse error, with its expectation as characters.
pub ghost enum PErrV {
    Unexpected { expected: Seq<char>, got: TokenKind, span: Span },
    UnexpectedEof { expected: Seq<char> },
}

impl View for ParseError {
    type V = PErrV;

    open spec fn view(&self) -> PErrV {
        match self {
            ParseError::Unexpected { expected, got, span } => PErrV::Unexpected {
                expected: expected@,
                got: *got,
                span: *span,
            },
            ParseError::UnexpectedEof { expected } => PErrV::UnexpectedEof { expected: expected@ },
        }
    }
}

/// The error for wanting `label` at position `p`.
pub open spec fn err_at(t: Seq<Token>, p: int, label: Seq<char>) -> PErrV {
    if t[p].kind is Eof {
        PErrV::UnexpectedEof { expected: label }
    } else {
        PErrV::Unexpected { expected: label, got: t[p].kind, span: t[p].span }
    }
}

/// How many tokens are left from `p`.
pub open spec fn rest(t: Seq<Token>, p: int) -> nat {
    if 0 <= p < t.len() {
        (t.len() - p) as nat
    } else {
        0
    }
}

/// A type expression with its parameter list as a sequence.
pub ghost enum TypeExprV {
    Named(String),
    Array(Box<TypeExprV>),
    Iterable(Box<TypeExprV>),
    Function { params: Seq<TypeExprV>, ret: Box<TypeExprV> },
}

/// The view of a type expression.
pub open spec fn tview(t: TypeExpr) -> TypeExprV
    decreases t, 1nat,
{
    match t {
        TypeExpr::Named(n) => TypeExprV::Named(n),
        TypeExpr::Array(x) => TypeExprV::Array(Box::new(tview(*x))),
        TypeExpr::Iterable(x) => TypeExprV::Iterable(Box::new(tview(*x))),
        TypeExpr::Function { params, ret } => {
            proof {
                assert(decreases_to!(params => params@));
            }
            TypeExprV::Function { params: tviews(params@), ret: Box::new(tview(*ret)) }
        },
    }
}

/// The views of a list of type expressions.
pub open spec fn tviews(ts: Seq<TypeExpr>) -> Seq<TypeExprV>
    decreases ts, 0nat,
{
    if ts.len() == 0 {
        Seq::empty()
    } else {
        tviews(ts.subrange(0, ts.len() - 1)).push(tview(ts[ts.len() - 1]))
    }
}

/// The view of an optional type expression.
pub open spec fn otview(t: Option<TypeExpr>) -> Option<TypeExprV> {
    match t {
        Some(x) => Some(tview(x)),
        None => None,
    }
}

/// A type at `p`: a name with any `[]` and `*` after it, or `(T, ...) -> R`.
pub open spec fn p_type(t: Seq<Token>, p: int) -> Result<(TypeExprV, int), PErrV>
    decreases rest(t, p), 2nat,
{
    if !(0 <= p < t.len()) {
        Err(err_at(t, p, "type name"@))
    } else if t[p].kind is LParen {
        let lst = if t[p + 1].kind is RParen {
            Ok((Seq::<TypeExprV>::empty(), p + 1))
        } else {
            p_types(t, p + 1, Seq::empty())
        };
        match lst {
            Err(e) => Err(e),
            Ok((ps, q)) => if q <= p {
                Err(err_at(t, q, "')' in function type"@))
            } else if !(t[q].kind is RParen) {
                Err(err_at(t, q, "')' in function type"@))
            } else if !(t[q + 1].kind is Arrow) {
                Err(err_at(t, q + 1, "'->' in function type"@))
            } else {
                match p_type(t, q + 2) {
                    Err(e) => Err(e),
                    Ok((ret, q2)) => Ok((TypeExprV::Function { params: ps, ret: Box::new(ret) }, q2)),
                }
            },
        }
    } else if t[p].kind is Ident {
        p_type_suffix(t, p + 1, TypeExprV::Named(t[p].kind->Ident_0))
    } else {
        Err(err_at(t, p, "type name"@))
    }
}

/// Types separated by commas from `p`, after those in `acc`.
pub open spec fn p_types(t: Seq<Token>, p: int, acc: Seq<TypeExprV>) -> Result<(Seq<TypeExprV>, int), PErrV>
    decreases rest(t, p), 3nat,
{
    if !(0 <= p < t.len()) {
        Err(err_at(t, p, "type name"@))
    } else {
        match p_type(t, p) {
            Err(e) => Err(e),
            Ok((x, q)) => if q <= p {
                Ok((acc.push(x), q))
            } else {
                p_types_more(t, q, acc.push(x))
            },
        }
    }
}

/// After the types `acc`, at `q`: a comma and more types, or the end of the list.
pub open spec fn p_types_more(t: Seq<Token>, q: int, acc: Seq<TypeExprV>) -> Result<(Seq<TypeExprV>, int), PErrV>
    decreases rest(t, q), 0nat,
{
    if 0 <= q < t.len() && t[q].kind is Comma {
        p_types(t, q + 1, acc)
    } else {
        Ok((acc, q))
    }
}

/// Any `[]` and `*` after type `ty`, from `p`.
pub open spec fn p_type_suffix(t: Seq<Token>, p: int, ty: TypeExprV) -> Result<(TypeExprV, int), PErrV>
    decreases rest(t, p), 1nat,
{
    if !(0 <= p < t.len()) {
        Ok((ty, p))
    } else if t[p].kind is LBracket {
        if t[p + 1].kind is RBracket {
            p_type_suffix(t, p + 2, TypeExprV::Array(Box::new(ty)))
        } else {
            Err(err_at(t, p + 1, "']' in array type"@))
        }
    } else if t[p].kind is Star {
        p_type_suffix(t, p + 1, TypeExprV::Iterable(Box::new(ty)))
    } else {
        Ok((ty, p))
    }
}

/// The view of a parse of a type that stopped at `q`.
pub open spec fn type_result(r: Result<TypeExpr, ParseError>, q: int) -> Result<(TypeExprV, int), PErrV> {
    match r {
        Ok(x) => Ok((tview(x), q)),
        Err(e) => Err(e@),
    }
}

/// An expression with its span, seen with its lists as sequences.
pub ghost struct SExprV {
    pub node: ExprV,
    pub span: Span,
}

/// The view of an expression node.
pub ghost enum ExprV {
    Number(String),
    Bool(bool),
    Str(String),
    Null,
    Var(String),
    Self_,
    Unary { op: UnaryOp, operand: Box<SExprV> },
    Binary { op: BinaryOp, left: Box<SExprV>, right: Box<SExprV> },
    Assign { target: Box<SExprV>, value: Box<SExprV> },
    Let { bindings: Seq<BindingV>, body: Box<SExprV> },
    If {
        cond: Box<SExprV>,
        then: Box<SExprV>,
        elif_branches: Seq<(SExprV, SExprV)>,
        else_branch: Option<Box<SExprV>>,
    },
    While { cond: Box<SExprV>, body: Box<SExprV> },
    Block(Seq<SExprV>),
    Call { callee: String, args: Seq<SExprV> },
    MethodCall { object: Box<SExprV>, method: String, args: Seq<SExprV> },
    FieldAccess { object: Box<SExprV>, field: String },
    Index { array: Box<SExprV>, index: Box<SExprV> },
    New { ty_name: String, args: Seq<SExprV> },
    NewArray { ty_name: String, size: Box<SExprV>, init: Option<Box<SExprV>> },
    Case { expr: Box<SExprV>, arms: Seq<ArmV> },
    With { expr: Box<SExprV>, binding: String, body: Box<SExprV>, fallback: Box<SExprV> },
    For { var: String, iter: Box<SExprV>, body: Box<SExprV> },
    IsInstance { expr: Box<SExprV>, ty_name: String },
    Cast { expr: Box<SExprV>, ty_name: String },
    VecLit { elements: Seq<SExprV> },
    VecComp { body: Box<SExprV>, var: String, iter: Box<SExprV> },
    Base { args: Seq<SExprV> },
    Lambda { params: Seq<ParamV>, body: Box<SExprV> },
    MacroArgRef(String),
    MacroArgName(String),
    MacroMatch { subject: Box<SExprV>, cases: Seq<(SExprV, SExprV)>, default_body: Box<SExprV> },
}

/// The view of a `let` binding.
pub ghost struct BindingV {
    pub name: String,
    pub type_ann: Option<TypeExprV>,
    pub init: SExprV,
    pub span: Span,
}

/// The view of a `case` arm.
pub ghost struct ArmV {
    pub binding: String,
    pub type_ann: TypeExprV,
    pub body: SExprV,
    pub span: Span,
}

/// The view of a parameter.
pub ghost struct ParamV {
    pub name: String,
    pub type_ann: Option<TypeExprV>,
    pub span: Span,
}

/// The view of a parameter.
pub open spec fn pview(x: Param) -> ParamV {
    ParamV { name: x.name, type_ann: otview(x.type_ann), span: x.span }
}

/// The views of a list of parameters.
pub open spec fn pviews(s: Seq<Param>) -> Seq<ParamV> {
    Seq::new(s.len(), |i: int| pview(s[i]))
}

/// A placeholder expression, for positions outside a list.
pub open spec fn no_expr() -> SExprV {
    SExprV { node: ExprV::Null, span: Span { start: 0, end: 0, line: 0, col: 0 } }
}

/// The view of an expression node.
#[verifier::opaque]
pub open spec fn nview(n: Expr) -> ExprV
    decreases n,
{
    match n {
        Expr::Number(x) => ExprV::Number(x),
        Expr::Bool(x) => ExprV::Bool(x),
        Expr::Str(x) => ExprV::Str(x),
        Expr::Null => ExprV::Null,
        Expr::Var(x) => ExprV::Var(x),
        Expr::Self_ => ExprV::Self_,
        Expr::Unary { op, operand } => ExprV::Unary {
            op,
            operand: Box::new(SExprV { node: nview(operand.node), span: operand.span }),
        },
        Expr::Binary { op, left, right } => ExprV::Binary {
            op,
            left: Box::new(SExprV { node: nview(left.node), span: left.span }),
            right: Box::new(SExprV { node: nview(right.node), span: right.span }),
        },
        Expr::Assign { target, value } => ExprV::Assign {
            target: Box::new(SExprV { node: nview(target.node), span: target.span }),
            value: Box::new(SExprV { node: nview(value.node), span: value.span }),
        },
        Expr::Let { bindings, body } => {
            proof {
                assert(decreases_to!(bindings => bindings@));
            }
            ExprV::Let {
                bindings: Seq::new(
                    bindings@.len(),
                    |i: int|
                        BindingV {
                            name: bindings@[i].name,
                            type_ann: otview(bindings@[i].type_ann),
                            init: if 0 <= i < bindings@.len() {
                                SExprV { node: nview(bindings@[i].init.node), span: bindings@[i].init.span }
                            } else {
                                no_expr()
                            },
                            span: bindings@[i].span,
                        },
                ),
                body: Box::new(SExprV { node: nview(body.node), span: body.span }),
            }
        },
        Expr::If { cond, then, elif_branches, else_branch } => {
            proof {
                assert(decreases_to!(elif_branches => elif_branches@));
            }
            ExprV::If {
                cond: Box::new(SExprV { node: nview(cond.node), span: cond.span }),
                then: Box::new(SExprV { node: nview(then.node), span: then.span }),
                elif_branches: Seq::new(
                    elif_branches@.len(),
                    |i: int|
                        if 0 <= i < elif_branches@.len() {
                            (
                                SExprV { node: nview(elif_branches@[i].0.node), span: elif_branches@[i].0.span },
                                SExprV { node: nview(elif_branches@[i].1.node), span: elif_branches@[i].1.span },
                            )
                        } else {
                            (no_expr(), no_expr())
                        },
                ),
                else_branch: match else_branch {
                    Some(x) => Some(Box::new(SExprV { node: nview(x.node), span: x.span })),
                    None => None,
                },
            }
        },
        Expr::While { cond, body } => ExprV::While {
            cond: Box::new(SExprV { node: nview(cond.node), span: cond.span }),
            body: Box::new(SExprV { node: nview(body.node), span: body.span }),
        },
        Expr::Block(s) => {
            proof {
                assert(decreases_to!(s => s@));
            }
            ExprV::Block(Seq::new(
                s@.len(),
                |i: int|
                    if 0 <= i < s@.len() {
                        SExprV { node: nview(s@[i].node), span: s@[i].span }
                    } else {
                        no_expr()
                    },
            ))
        },
        Expr::Call { callee, args } => {
            proof {
                assert(decreases_to!(args => args@));
            }
            ExprV::Call { callee, args: Seq::new(
                args@.len(),
                |i: int|
                    if 0 <= i < args@.len() {
                        SExprV { node: nview(args@[i].node), span: args@[i].span }
                    } else {
                        no_expr()
                    },
            ) }
        },
        Expr::MethodCall { object, method, args } => {
            proof {
                assert(decreases_to!(args => args@));
            }
            ExprV::MethodCall {
                object: Box::new(SExprV { node: nview(object.node), span: object.span }),
                method,
                args: Seq::new(
                    args@.len(),
                    |i: int|
                        if 0 <= i < args@.len() {
                            SExprV { node: nview(args@[i].node), span: args@[i].span }
                        } else {
                            no_expr()
                        },
                ),
            }
        },
        Expr::FieldAccess { object, field } => ExprV::FieldAccess {
            object: Box::new(SExprV { node: nview(object.node), span: object.span }),
            field,
        },
        Expr::Index { array, index } => ExprV::Index {
            array: Box::new(SExprV { node: nview(array.node), span: array.span }),
            index: Box::new(SExprV { node: nview(index.node), span: index.span }),
        },
        Expr::New { ty_name, args } => {
            proof {
                assert(decreases_to!(args => args@));
            }
            ExprV::New { ty_name, args: Seq::new(
                args@.len(),
                |i: int|
                    if 0 <= i < args@.len() {
                        SExprV { node: nview(args@[i].node), span: args@[i].span }
                    } else {
                        no_expr()
                    },
            ) }
        },
        Expr::NewArray { ty_name, size, init } => ExprV::NewArray {
            ty_name,
            size: Box::new(SExprV { node: nview(size.node), span: size.span }),
            init: match init {
                Some(x) => Some(Box::new(SExprV { node: nview(x.node), span: x.span })),
                None => None,
            },
        },
        Expr::Case { expr, arms } => {
            proof {
                assert(decreases_to!(arms => arms@));
            }
            ExprV::Case {
                expr: Box::new(SExprV { node: nview(expr.node), span: expr.span }),
                arms: Seq::new(
                    arms@.len(),
                    |i: int|
                        ArmV {
                            binding: arms@[i].binding,
                            type_ann: tview(arms@[i].type_ann),
                            body: if 0 <= i < arms@.len() {
                                SExprV { node: nview(arms@[i].body.node), span: arms@[i].body.span }
                            } else {
                                no_expr()
                            },
                            span: arms@[i].span,
                        },
                ),
            }
        },
        Expr::With { expr, binding, body, fallback } => ExprV::With {
            expr: Box::new(SExprV { node: nview(expr.node), span: expr.span }),
            binding,
            body: Box::new(SExprV { node: nview(body.node), span: body.span }),
            fallback: Box::new(SExprV { node: nview(fallback.node), span: fallback.span }),
        },
        Expr::For { var, iter, body } => ExprV::For {
            var,
            iter: Box::new(SExprV { node: nview(iter.node), span: iter.span }),
            body: Box::new(SExprV { node: nview(body.node), span: body.span }),
        },
        Expr::IsInstance { expr, ty_name } => ExprV::IsInstance {
            expr: Box::new(SExprV { node: nview(expr.node), span: expr.span }),
            ty_name,
        },
        Expr::Cast { expr, ty_name } => ExprV::Cast {
            expr: Box::new(SExprV { node: nview(expr.node), span: expr.span }),
            ty_name,
        },
        Expr::VecLit { elements } => {
            proof {
                assert(decreases_to!(elements => elements@));
            }
            ExprV::VecLit { elements: Seq::new(
                elements@.len(),
                |i: int|
                    if 0 <= i < elements@.len() {
                        SExprV { node: nview(elements@[i].node), span: elements@[i].span }
                    } else {
                        no_expr()
                    },
            ) }
        },
        Expr::VecComp { body, var, iter } => ExprV::VecComp {
            body: Box::new(SExprV { node: nview(body.node), span: body.span }),
            var,
            iter: Box::new(SExprV { node: nview(iter.node), span: iter.span }),
        },
        Expr::Base { args } => {
            proof {
                assert(decreases_to!(args => args@));
            }
            ExprV::Base { args: Seq::new(
                args@.len(),
                |i: int|
                    if 0 <= i < args@.len() {
                        SExprV { node: nview(args@[i].node), span: args@[i].span }
                    } else {
                        no_expr()
                    },
            ) }
        },
        Expr::Lambda { params, body } => ExprV::Lambda {
            params: pviews(params@),
            body: Box::new(SExprV { node: nview(body.node), span: body.span }),
        },
        Expr::MacroArgRef(x) => ExprV::MacroArgRef(x),
        Expr::MacroArgName(x) => ExprV::MacroArgName(x),
        Expr::MacroMatch { subject, cases, default_body } => {
            proof {
                assert(decreases_to!(cases => cases@));
            }
            ExprV::MacroMatch {
                subject: Box::new(SExprV { node: nview(subject.node), span: subject.span }),
                cases: Seq::new(
                    cases@.len(),
                    |i: int|
                        if 0 <= i < cases@.len() {
                            (
                                SExprV { node: nview(cases@[i].0.node), span: cases@[i].0.span },
                                SExprV { node: nview(cases@[i].1.node), span: cases@[i].1.span },
                            )
                        } else {
                            (no_expr(), no_expr())
                        },
                ),
                default_body: Box::new(SExprV { node: nview(default_body.node), span: default_body.span }),
            }
        },
    }
}

/// The view of an expression.
pub open spec fn eview(e: ExprS) -> SExprV {
    SExprV { node: nview(e.node), span: e.span }
}

/// The views of a list of expressions.
pub open spec fn eviews(s: Seq<ExprS>) -> Seq<SExprV> {
    Seq::new(s.len(), |i: int| if 0 <= i < s.len() { eview(s[i]) } else { no_expr() })
}

/// The views of `let` bindings.
pub open spec fn bviews(s: Seq<Binding>) -> Seq<BindingV> {
    Seq::new(
        s.len(),
        |i: int|
            BindingV {
                name: s[i].name,
                type_ann: otview(s[i].type_ann),
                init: if 0 <= i < s.len() { eview(s[i].init) } else { no_expr() },
                span: s[i].span,
            },
    )
}

/// The views of `case` arms.
pub open spec fn armviews(s: Seq<CaseArm>) -> Seq<ArmV> {
    Seq::new(
        s.len(),
        |i: int|
            ArmV {
                binding: s[i].binding,
                type_ann: tview(s[i].type_ann),
                body: if 0 <= i < s.len() { eview(s[i].body) } else { no_expr() },
                span: s[i].span,
            },
    )
}

/// The views of pairs of expressions.
pub open spec fn pairviews(s: Seq<(ExprS, ExprS)>) -> Seq<(SExprV, SExprV)> {
    Seq::new(s.len(), |i: int| if 0 <= i < s.len() { (eview(s[i].0), eview(s[i].1)) } else { (no_expr(), no_expr()) })
}

/// The view of an optional expression.
pub open spec fn oview(x: Option<ExprS>) -> Option<SExprV> {
    match x {
        Some(e) => Some(eview(e)),
        None => None,
    }
}

/// One level of `nview`: the node with its parts taken by their views.
pub open spec fn nview_step(n: Expr) -> ExprV {
    match n {
        Expr::Number(x) => ExprV::Number(x),
        Expr::Bool(x) => ExprV::Bool(x),
        Expr::Str(x) => ExprV::Str(x),
        Expr::Null => ExprV::Null,
        Expr::Var(x) => ExprV::Var(x),
        Expr::Self_ => ExprV::Self_,
        Expr::Unary { op, operand } => ExprV::Unary { op, operand: Box::new(eview(*operand)) },
        Expr::Binary { op, left, right } => ExprV::Binary {
            op,
            left: Box::new(eview(*left)),
            right: Box::new(eview(*right)),
        },
        Expr::Assign { target, value } => ExprV::Assign {
            target: Box::new(eview(*target)),
            value: Box::new(eview(*value)),
        },
        Expr::Let { bindings, body } => ExprV::Let { bindings: bviews(bindings@), body: Box::new(eview(*body)) },
        Expr::If { cond, then, elif_branches, else_branch } => ExprV::If {
            cond: Box::new(eview(*cond)),
            then: Box::new(eview(*then)),
            elif_branches: pairviews(elif_branches@),
            else_branch: match else_branch {
                Some(x) => Some(Box::new(eview(*x))),
                None => None,
            },
        },
        Expr::While { cond, body } => ExprV::While { cond: Box::new(eview(*cond)), body: Box::new(eview(*body)) },
        Expr::Block(s) => ExprV::Block(eviews(s@)),
        Expr::Call { callee, args } => ExprV::Call { callee, args: eviews(args@) },
        Expr::MethodCall { object, method, args } => ExprV::MethodCall {
            object: Box::new(eview(*object)),
            method,
            args: eviews(args@),
        },
        Expr::FieldAccess { object, field } => ExprV::FieldAccess { object: Box::new(eview(*object)), field },
        Expr::Index { array, index } => ExprV::Index {
            array: Box::new(eview(*array)),
            index: Box::new(eview(*index)),
        },
        Expr::New { ty_name, args } => ExprV::New { ty_name, args: eviews(args@) },
        Expr::NewArray { ty_name, size, init } => ExprV::NewArray {
            ty_name,
            size: Box::new(eview(*size)),
            init: match init {
                Some(x) => Some(Box::new(eview(*x))),
                None => None,
            },
        },
        Expr::Case { expr, arms } => ExprV::Case { expr: Box::new(eview(*expr)), arms: armviews(arms@) },
        Expr::With { expr, binding, body, fallback } => ExprV::With {
            expr: Box::new(eview(*expr)),
            binding,
            body: Box::new(eview(*body)),
            fallback: Box::new(eview(*fallback)),
        },
        Expr::For { var, iter, body } => ExprV::For {
            var,
            iter: Box::new(eview(*iter)),
            body: Box::new(eview(*body)),
        },
        Expr::IsInstance { expr, ty_name } => ExprV::IsInstance { expr: Box::new(eview(*expr)), ty_name },
        Expr::Cast { expr, ty_name } => ExprV::Cast { expr: Box::new(eview(*expr)), ty_name },
        Expr::VecLit { elements } => ExprV::VecLit { elements: eviews(elements@) },
        Expr::VecComp { body, var, iter } => ExprV::VecComp {
            body: Box::new(eview(*body)),
            var,
            iter: Box::new(eview(*iter)),
        },
        Expr::Base { args } => ExprV::Base { args: eviews(args@) },
        Expr::Lambda { params, body } => ExprV::Lambda { params: pviews(params@), body: Box::new(eview(*body)) },
        Expr::MacroArgRef(x) => ExprV::MacroArgRef(x),
        Expr::MacroArgName(x) => ExprV::MacroArgName(x),
        Expr::MacroMatch { subject, cases, default_body } => ExprV::MacroMatch {
            subject: Box::new(eview(*subject)),
            cases: pairviews(cases@),
            default_body: Box::new(eview(*default_body)),
        },
    }
}

/// The view of a node is its one-level view.
pub proof fn lemma_nview(n: Expr)
    ensures
        nview(n) == nview_step(n),
{
    reveal(nview);
    match n {
        Expr::Let { bindings, .. } => {
            assert(nview(n)->Let_bindings =~= bviews(bindings@));
        },
        Expr::If { elif_branches, .. } => {
            assert(nview(n)->If_elif_branches =~= pairviews(elif_branches@));
        },
        Expr::Block(s) => {
            assert(nview(n)->Block_0 =~= eviews(s@));
        },
        Expr::Call { args, .. } => {
            assert(nview(n)->Call_args =~= eviews(args@));
        },
        Expr::MethodCall { args, .. } => {
            assert(nview(n)->MethodCall_args =~= eviews(args@));
        },
        Expr::New { args, .. } => {
            assert(nview(n)->New_args =~= eviews(args@));
        },
        Expr::Case { arms, .. } => {
            assert(nview(n)->Case_arms =~= armviews(arms@));
        },
        Expr::VecLit { elements } => {
            assert(nview(n)->VecLit_elements =~= eviews(elements@));
        },
        Expr::Base { args } => {
            assert(nview(n)->Base_args =~= eviews(args@));
        },
        Expr::MacroMatch { cases, .. } => {
            assert(nview(n)->MacroMatch_cases =~= pairviews(cases@));
        },
        _ => {},
    }
}

/// The span from the start of `a` to `end`.
pub open spec fn span_to(a: Span, end: usize) -> Span {
    Span { start: a.start, end, line: a.line, col: a.col }
}

/// The binary operator that level `lvl` reads at a token of kind `k`, from
/// the loosest (`|`, which is not read while `no_pipe`) to the tightest
/// (`*`, `/`, `%`).
pub open spec fn bin_op(lvl: int, k: TokenKind, no_pipe: bool) -> Option<BinaryOp> {
    if lvl == 1 {
        if !no_pipe && k is Pipe { Some(BinaryOp::Or) } else { None }
    } else if lvl == 2 {
        if k is Amp { Some(BinaryOp::And) } else { None }
    } else if lvl == 3 {
        match k {
            TokenKind::EqEq => Some(BinaryOp::Eq),
            TokenKind::BangEq => Some(BinaryOp::Ne),
            _ => None,
        }
    } else if lvl == 4 {
        match k {
            TokenKind::Lt => Some(BinaryOp::Lt),
            TokenKind::Le => Some(BinaryOp::Le),
            TokenKind::Gt => Some(BinaryOp::Gt),
            TokenKind::Ge => Some(BinaryOp::Ge),
            _ => None,
        }
    } else if lvl == 5 {
        match k {
            TokenKind::At => Some(BinaryOp::Concat),
            TokenKind::AtAt => Some(BinaryOp::ConcatSpace),
            _ => None,
        }
    } else if lvl == 6 {
        match k {
            TokenKind::Plus => Some(BinaryOp::Add),
            TokenKind::Minus => Some(BinaryOp::Sub),
            _ => None,
        }
    } else if lvl == 7 {
        match k {
            TokenKind::Star => Some(BinaryOp::Mul),
            TokenKind::Slash => Some(BinaryOp::Div),
            TokenKind::Percent => Some(BinaryOp::Mod),
            _ => None,
        }
    } else {
        None
    }
}

/// The kind of the token at `i`, or the end of input outside the sequence.
pub open spec fn kind_at(t: Seq<Token>, i: int) -> TokenKind {
    if 0 <= i < t.len() { t[i].kind } else { TokenKind::Eof }
}

/// Where a parameter's type annotation that begins at `i` ends: at the first
/// `)` or `,` outside parentheses opened inside it (`depth` are open).
pub open spec fn skip_ann(t: Seq<Token>, i: int, depth: int) -> int
    decreases t.len() - i,
{
    if !(0 <= i < t.len()) {
        i
    } else if t[i].kind is LParen {
        skip_ann(t, i + 1, if depth < usize::MAX { depth + 1 } else { depth })
    } else if t[i].kind is RParen && depth > 0 {
        skip_ann(t, i + 1, depth - 1)
    } else if t[i].kind is RParen || t[i].kind is Comma {
        i
    } else {
        skip_ann(t, i + 1, depth)
    }
}

/// From `i`: parameters `x [: T]` separated by commas, then `)` and `=>`.
pub open spec fn lambda_params_ahead(t: Seq<Token>, i: int) -> bool
    decreases t.len() - i,
{
    if !(0 <= i < t.len()) || !(t[i].kind is Ident) {
        false
    } else {
        let j = if kind_at(t, i + 1) is Colon { skip_ann(t, i + 2, 0) } else { i + 1 };
        if kind_at(t, j) is Comma {
            if j <= i { false } else { lambda_params_ahead(t, j + 1) }
        } else if kind_at(t, j) is RParen {
            kind_at(t, j + 1) is DArrow
        } else {
            false
        }
    }
}

/// A lambda begins at `p`: `(` and either `) =>` or parameters.
pub open spec fn lambda_start(t: Seq<Token>, p: int) -> bool {
    &&& kind_at(t, p) is LParen
    &&& if kind_at(t, p + 1) is RParen {
        kind_at(t, p + 2) is DArrow
    } else {
        lambda_params_ahead(t, p + 1)
    }
}

/// An optional type annotation `: T` at `p`, and where it ends.
pub open spec fn p_ann(t: Seq<Token>, p: int) -> Result<(Option<TypeExprV>, int), PErrV> {
    if 0 <= p < t.len() && t[p].kind is Colon {
        match p_type(t, p + 1) {
            Err(e) => Err(e),
            Ok((ty, q)) => Ok((Some(ty), q)),
        }
    } else {
        Ok((None, p))
    }
}

/// Parameters `name [: T]` separated by commas from `p`, after `acc`.
pub open spec fn p_params_from(t: Seq<Token>, p: int, acc: Seq<ParamV>) -> Result<(Seq<ParamV>, int), PErrV>
    decreases rest(t, p),
{
    if !(0 <= p < t.len()) || !(t[p].kind is Ident) {
        Err(err_at(t, p, "parameter name"@))
    } else {
        match p_ann(t, p + 1) {
            Err(e) => Err(e),
            Ok((ann, q)) => if q <= p {
                Err(err_at(t, p, "parameter name"@))
            } else {
                let x = ParamV { name: t[p].kind->Ident_0, type_ann: ann, span: span_to(t[p].span, t[q].span.start) };
                if t[q].kind is Comma {
                    p_params_from(t, q + 1, acc.push(x))
                } else {
                    Ok((acc.push(x), q))
                }
            },
        }
    }
}

/// A parameter list from `p`, up to (not including) `)`.
pub open spec fn p_params(t: Seq<Token>, p: int) -> Result<(Seq<ParamV>, int), PErrV> {
    if 0 <= p < t.len() && t[p].kind is RParen {
        Ok((Seq::empty(), p))
    } else {
        p_params_from(t, p, Seq::empty())
    }
}

/// An expression at `p`. `nc`: `as` is not read as a cast; `np`: `|` is not
/// read as logical or. Where a part would end no later than it began (which
/// the parser rules out), reading fails.
#[verifier::opaque]
pub open spec fn p_expr(t: Seq<Token>, p: int, nc: bool, np: bool) -> Result<(SExprV, int), PErrV>
    decreases rest(t, p), 30int,
{
    if !(0 <= p < t.len()) {
        Err(err_at(t, p, "expression"@))
    } else {
        match t[p].kind {
            TokenKind::Let => p_let(t, p, nc, np),
            TokenKind::If => p_if(t, p, nc, np),
            TokenKind::While => p_while(t, p, nc, np),
            TokenKind::For => p_for(t, p, nc, np),
            TokenKind::Case => p_case(t, p, nc, np),
            TokenKind::With => p_with(t, p, nc, np),
            _ => p_assign(t, p, nc, np),
        }
    }
}

/// `target := value`, right-associative.
#[verifier::opaque]
pub open spec fn p_assign(t: Seq<Token>, p: int, nc: bool, np: bool) -> Result<(SExprV, int), PErrV>
    decreases rest(t, p), 29int,
{
    if !(0 <= p < t.len()) {
        Err(err_at(t, p, "expression"@))
    } else {
        match p_type_ops(t, p, nc, np) {
            Err(e) => Err(e),
            Ok((l, q)) => if q <= p {
                Err(err_at(t, p, "expression"@))
            } else if t[q].kind is ColonEq {
                match p_assign(t, q + 1, nc, np) {
                    Err(e) => Err(e),
                    Ok((r, q2)) => Ok((
                        SExprV {
                            node: ExprV::Assign { target: Box::new(l), value: Box::new(r) },
                            span: span_to(l.span, r.span.end),
                        },
                        q2,
                    )),
                }
            } else {
                Ok((l, q))
            },
        }
    }
}

/// `e is T` and `e as T`, read left to right.
#[verifier::opaque]
pub open spec fn p_type_ops(t: Seq<Token>, p: int, nc: bool, np: bool) -> Result<(SExprV, int), PErrV>
    decreases rest(t, p), 28int,
{
    if !(0 <= p < t.len()) {
        Err(err_at(t, p, "expression"@))
    } else {
        match p_bin(t, p, nc, np, 1) {
            Err(e) => Err(e),
            Ok((l, q)) => if q <= p {
                Err(err_at(t, p, "expression"@))
            } else {
                p_type_ops_more(t, q, l, nc, np)
            },
        }
    }
}

/// After `e`, at `q`: any `is T` and `as T`.
#[verifier::opaque]
pub open spec fn p_type_ops_more(t: Seq<Token>, q: int, e: SExprV, nc: bool, np: bool) -> Result<(SExprV, int), PErrV>
    decreases rest(t, q), 0int,
{
    if !(0 <= q < t.len()) {
        Ok((e, q))
    } else if t[q].kind is Is || (!nc && t[q].kind is As) {
        if t[q + 1].kind is Ident {
            let name = t[q + 1].kind->Ident_0;
            let sp = span_to(e.span, t[q + 1].span.end);
            let node = if t[q].kind is Is {
                ExprV::IsInstance { expr: Box::new(e), ty_name: name }
            } else {
                ExprV::Cast { expr: Box::new(e), ty_name: name }
            };
            p_type_ops_more(t, q + 2, SExprV { node, span: sp }, nc, np)
        } else {
            Err(err_at(t, q + 1, "type name"@))
        }
    } else {
        Ok((e, q))
    }
}

/// Level `lvl` (1 to 7) of the left-associative binary operators.
#[verifier::opaque]
pub open spec fn p_bin(t: Seq<Token>, p: int, nc: bool, np: bool, lvl: int) -> Result<(SExprV, int), PErrV>
    decreases rest(t, p), 28 - lvl,
{
    if !(0 <= p < t.len()) || !(1 <= lvl <= 7) {
        Err(err_at(t, p, "expression"@))
    } else {
        let first = if lvl < 7 { p_bin(t, p, nc, np, lvl + 1) } else { p_pow(t, p, nc, np) };
        match first {
            Err(e) => Err(e),
            Ok((l, q)) => if q <= p {
                Err(err_at(t, p, "expression"@))
            } else {
                p_bin_more(t, q, l, nc, np, lvl)
            },
        }
    }
}

/// After the left operand `l`, at `q`: more operators of level `lvl`.
#[verifier::opaque]
pub open spec fn p_bin_more(t: Seq<Token>, q: int, l: SExprV, nc: bool, np: bool, lvl: int) -> Result<(SExprV, int), PErrV>
    decreases rest(t, q), 0int,
{
    if !(0 <= q < t.len()) {
        Ok((l, q))
    } else {
        match bin_op(lvl, t[q].kind, np) {
            None => Ok((l, q)),
            Some(op) => {
                let next = if lvl < 7 { p_bin(t, q + 1, nc, np, lvl + 1) } else { p_pow(t, q + 1, nc, np) };
                match next {
                    Err(e) => Err(e),
                    Ok((r, q2)) => if q2 <= q {
                        Err(err_at(t, q, "expression"@))
                    } else {
                        p_bin_more(
                            t,
                            q2,
                            SExprV {
                                node: ExprV::Binary { op, left: Box::new(l), right: Box::new(r) },
                                span: span_to(l.span, r.span.end),
                            },
                            nc,
                            np,
                            lvl,
                        )
                    },
                }
            },
        }
    }
}

/// `a ^ b ^ c` is `a ^ (b ^ c)`.
#[verifier::opaque]
pub open spec fn p_pow(t: Seq<Token>, p: int, nc: bool, np: bool) -> Result<(SExprV, int), PErrV>
    decreases rest(t, p), 20int,
{
    if !(0 <= p < t.len()) {
        Err(err_at(t, p, "expression"@))
    } else {
        match p_unary(t, p, nc, np) {
            Err(e) => Err(e),
            Ok((base, q)) => if q <= p {
                Err(err_at(t, p, "expression"@))
            } else if t[q].kind is Caret {
                match p_pow(t, q + 1, nc, np) {
                    Err(e) => Err(e),
                    Ok((x, q2)) => Ok((
                        SExprV {
                            node: ExprV::Binary { op: BinaryOp::Pow, left: Box::new(base), right: Box::new(x) },
                            span: span_to(base.span, x.span.end),
                        },
                        q2,
                    )),
                }
            } else {
                Ok((base, q))
            },
        }
    }
}

/// `-e`, `!e`, or a postfix expression.
#[verifier::opaque]
pub open spec fn p_unary(t: Seq<Token>, p: int, nc: bool, np: bool) -> Result<(SExprV, int), PErrV>
    decreases rest(t, p), 19int,
{
    if !(0 <= p < t.len()) {
        Err(err_at(t, p, "expression"@))
    } else if t[p].kind is Minus || t[p].kind is Bang {
        match p_unary(t, p + 1, nc, np) {
            Err(e) => Err(e),
            Ok((x, q)) => Ok((
                SExprV {
                    node: ExprV::Unary {
                        op: if t[p].kind is Minus { UnaryOp::Neg } else { UnaryOp::Not },
                        operand: Box::new(x),
                    },
                    span: span_to(t[p].span, x.span.end),
                },
                q,
            )),
        }
    } else {
        p_postfix(t, p, nc, np)
    }
}

/// A primary expression and any `.field`, `.method(args)` and `[index]`.
#[verifier::opaque]
pub open spec fn p_postfix(t: Seq<Token>, p: int, nc: bool, np: bool) -> Result<(SExprV, int), PErrV>
    decreases rest(t, p), 18int,
{
    if !(0 <= p < t.len()) {
        Err(err_at(t, p, "expression"@))
    } else {
        match p_primary(t, p, nc, np) {
            Err(e) => Err(e),
            Ok((e, q)) => if q <= p {
                Err(err_at(t, p, "expression"@))
            } else {
                p_postfix_more(t, q, e, nc, np)
            },
        }
    }
}

/// After `e`, at `q`: any `.field`, `.method(args)` and `[index]`.
#[verifier::opaque]
pub open spec fn p_postfix_more(t: Seq<Token>, q: int, e: SExprV, nc: bool, np: bool) -> Result<(SExprV, int), PErrV>
    decreases rest(t, q), 0int,
{
    if !(0 <= q < t.len()) {
        Ok((e, q))
    } else if t[q].kind is Dot {
        if !(t[q + 1].kind is Ident) {
            Err(err_at(t, q + 1, "field or method name"@))
        } else {
            let m = t[q + 1].kind->Ident_0;
            if t[q + 2].kind is LParen {
                match p_args(t, q + 3, nc, np) {
                    Err(x) => Err(x),
                    Ok((args, q3)) => if q3 <= q {
                        Err(err_at(t, q, "expression"@))
                    } else if !(t[q3].kind is RParen) {
                        Err(err_at(t, q3, "')'"@))
                    } else {
                        p_postfix_more(
                            t,
                            q3 + 1,
                            SExprV {
                                node: ExprV::MethodCall { object: Box::new(e), method: m, args },
                                span: span_to(e.span, t[q3].span.end),
                            },
                            nc,
                            np,
                        )
                    },
                }
            } else {
                p_postfix_more(
                    t,
                    q + 2,
                    SExprV {
                        node: ExprV::FieldAccess { object: Box::new(e), field: m },
                        span: span_to(e.span, t[q + 2].span.start),
                    },
                    nc,
                    np,
                )
            }
        }
    } else if t[q].kind is LBracket {
        match p_expr(t, q + 1, nc, np) {
            Err(x) => Err(x),
            Ok((ix, q2)) => if q2 <= q {
                Err(err_at(t, q, "expression"@))
            } else if !(t[q2].kind is RBracket) {
                Err(err_at(t, q2, "']'"@))
            } else {
                p_postfix_more(
                    t,
                    q2 + 1,
                    SExprV {
                        node: ExprV::Index { array: Box::new(e), index: Box::new(ix) },
                        span: span_to(e.span, t[q2].span.end),
                    },
                    nc,
                    np,
                )
            },
        }
    } else {
        Ok((e, q))
    }
}

/// Arguments separated by commas from `p`, up to (not including) `)`.
#[verifier::opaque]
pub open spec fn p_args(t: Seq<Token>, p: int, nc: bool, np: bool) -> Result<(Seq<SExprV>, int), PErrV>
    decreases rest(t, p), 32int,
{
    if 0 <= p < t.len() && t[p].kind is RParen {
        Ok((Seq::empty(), p))
    } else {
        p_args_from(t, p, Seq::empty(), nc, np)
    }
}

/// Arguments from `p`, after those in `acc`.
#[verifier::opaque]
pub open spec fn p_args_from(t: Seq<Token>, p: int, acc: Seq<SExprV>, nc: bool, np: bool) -> Result<(Seq<SExprV>, int), PErrV>
    decreases rest(t, p), 31int,
{
    if !(0 <= p < t.len()) {
        Err(err_at(t, p, "expression"@))
    } else {
        match p_expr(t, p, nc, np) {
            Err(e) => Err(e),
            Ok((x, q)) => if q <= p {
                Err(err_at(t, p, "expression"@))
            } else if t[q].kind is Comma {
                p_args_from(t, q + 1, acc.push(x), nc, np)
            } else {
                Ok((acc.push(x), q))
            },
        }
    }
}

/// After the elements `acc`, at `q`: more elements, each after a comma.
#[verifier::opaque]
pub open spec fn p_elems(t: Seq<Token>, q: int, acc: Seq<SExprV>, nc: bool, np: bool) -> Result<(Seq<SExprV>, int), PErrV>
    decreases rest(t, q), 0int,
{
    if 0 <= q < t.len() && t[q].kind is Comma {
        match p_expr(t, q + 1, nc, np) {
            Err(e) => Err(e),
            Ok((x, q2)) => if q2 <= q {
                Err(err_at(t, q, "expression"@))
            } else {
                p_elems(t, q2, acc.push(x), nc, np)
            },
        }
    } else {
        Ok((acc, q))
    }
}

/// The node `n` over the tokens `p` to `end`, and the position after `end`.
pub open spec fn closed_at(t: Seq<Token>, p: int, n: ExprV, end: int) -> Result<(SExprV, int), PErrV> {
    Ok((SExprV { node: n, span: span_to(t[p].span, t[end].span.end) }, end + 1))
}

/// Literals, names, calls, `base(...)`, `match(...)`, `@x`, `$x`, `new`,
/// parenthesised expressions, lambdas, vectors, blocks and the keyword forms.
#[verifier::opaque]
pub open spec fn p_primary(t: Seq<Token>, p: int, nc: bool, np: bool) -> Result<(SExprV, int), PErrV>
    decreases rest(t, p), 17int,
{
    if !(0 <= p < t.len()) {
        Err(err_at(t, p, "expression"@))
    } else {
        match t[p].kind {
            TokenKind::If => p_if(t, p, nc, np),
            TokenKind::Let => p_let(t, p, nc, np),
            TokenKind::While => p_while(t, p, nc, np),
            TokenKind::For => p_for(t, p, nc, np),
            TokenKind::Case => p_case(t, p, nc, np),
            TokenKind::With => p_with(t, p, nc, np),
            TokenKind::Number(n) => Ok((SExprV { node: ExprV::Number(n), span: t[p].span }, p + 1)),
            TokenKind::StringLit(v) => Ok((SExprV { node: ExprV::Str(v), span: t[p].span }, p + 1)),
            TokenKind::True => Ok((SExprV { node: ExprV::Bool(true), span: t[p].span }, p + 1)),
            TokenKind::False => Ok((SExprV { node: ExprV::Bool(false), span: t[p].span }, p + 1)),
            TokenKind::Null => Ok((SExprV { node: ExprV::Null, span: t[p].span }, p + 1)),
            TokenKind::Self_ => Ok((SExprV { node: ExprV::Self_, span: t[p].span }, p + 1)),
            TokenKind::Ident(_) => p_name(t, p, nc, np),
            TokenKind::At => if t[p + 1].kind is Ident {
                Ok((
                    SExprV { node: ExprV::MacroArgRef(t[p + 1].kind->Ident_0), span: span_to(t[p].span, t[p + 1].span.end) },
                    p + 2,
                ))
            } else {
                Err(err_at(t, p + 1, "variable name after '@'"@))
            },
            TokenKind::Dollar => if t[p + 1].kind is Ident {
                Ok((
                    SExprV { node: ExprV::MacroArgName(t[p + 1].kind->Ident_0), span: span_to(t[p].span, t[p + 1].span.end) },
                    p + 2,
                ))
            } else {
                Err(err_at(t, p + 1, "variable name after '$'"@))
            },
            TokenKind::New => p_new(t, p, nc, np),
            TokenKind::LParen => p_paren(t, p, nc, np),
            TokenKind::LBracket => p_vector(t, p, nc, np),
            TokenKind::LBrace => p_block(t, p, nc, np),
            _ => Err(err_at(t, p, "expression"@)),
        }
    }
}

/// A name at `p`: a variable, a call, `base(args)` or a `match` form.
#[verifier::opaque]
pub open spec fn p_name(t: Seq<Token>, p: int, nc: bool, np: bool) -> Result<(SExprV, int), PErrV>
    decreases rest(t, p), 16int,
{
    if !(0 <= p < t.len()) || !(t[p].kind is Ident) {
        Err(err_at(t, p, "expression"@))
    } else {
        let n = t[p].kind->Ident_0;
        if n@ == "match"@ && !(n@ == "base"@) && t[p + 1].kind is LParen {
            p_macro_match(t, p + 1, t[p].span, nc, np)
        } else if t[p + 1].kind is LParen {
            match p_args(t, p + 2, nc, np) {
                Err(e) => Err(e),
                Ok((args, q)) => if q <= p {
                    Err(err_at(t, p, "expression"@))
                } else if !(t[q].kind is RParen) {
                    Err(err_at(t, q, "')'"@))
                } else if n@ == "base"@ {
                    closed_at(t, p, ExprV::Base { args }, q)
                } else {
                    closed_at(t, p, ExprV::Call { callee: n, args }, q)
                },
            }
        } else {
            Ok((SExprV { node: ExprV::Var(n), span: t[p].span }, p + 1))
        }
    }
}

/// At `(`: a lambda, or an expression in parentheses.
#[verifier::opaque]
pub open spec fn p_paren(t: Seq<Token>, p: int, nc: bool, np: bool) -> Result<(SExprV, int), PErrV>
    decreases rest(t, p), 16int,
{
    if !(0 <= p < t.len()) {
        Err(err_at(t, p, "expression"@))
    } else {
        if lambda_start(t, p) {
            p_lambda(t, p, nc, np)
        } else {
            match p_expr(t, p + 1, nc, np) {
                Err(e) => Err(e),
                Ok((x, q)) => if q <= p {
                    Err(err_at(t, p, "expression"@))
                } else if !(t[q].kind is RParen) {
                    Err(err_at(t, q, "')'"@))
                } else {
                    closed_at(t, p, x.node, q)
                },
            }
        }
    }
}

/// At `[`: `[]`, `[e1, e2, ...]` or `[body | x in iter]`; `|` is not read as
/// logical or in the first element.
#[verifier::opaque]
pub open spec fn p_vector(t: Seq<Token>, p: int, nc: bool, np: bool) -> Result<(SExprV, int), PErrV>
    decreases rest(t, p), 16int,
{
    if !(0 <= p < t.len()) {
        Err(err_at(t, p, "expression"@))
    } else {
        if t[p + 1].kind is RBracket {
            closed_at(t, p, ExprV::VecLit { elements: Seq::empty() }, p + 1)
        } else {
            match p_expr(t, p + 1, nc, true) {
                Err(e) => Err(e),
                Ok((first, q)) => if q <= p {
                    Err(err_at(t, p, "expression"@))
                } else if t[q].kind is Pipe {
                    if !(t[q + 1].kind is Ident) {
                        Err(err_at(t, q + 1, "variable name in comprehension"@))
                    } else if !(t[q + 2].kind is In) {
                        Err(err_at(t, q + 2, "'in' in vector comprehension"@))
                    } else {
                        match p_expr(t, q + 3, nc, np) {
                            Err(e) => Err(e),
                            Ok((it, q2)) => if q2 <= p {
                                Err(err_at(t, p, "expression"@))
                            } else if !(t[q2].kind is RBracket) {
                                Err(err_at(t, q2, "']'"@))
                            } else {
                                closed_at(
                                    t,
                                    p,
                                    ExprV::VecComp {
                                        body: Box::new(first),
                                        var: t[q + 1].kind->Ident_0,
                                        iter: Box::new(it),
                                    },
                                    q2,
                                )
                            },
                        }
                    }
                } else {
                    match p_elems(t, q, seq![first], nc, np) {
                        Err(e) => Err(e),
                        Ok((els, q2)) => if !(t[q2].kind is RBracket) {
                            Err(err_at(t, q2, "']'"@))
                        } else {
                            closed_at(t, p, ExprV::VecLit { elements: els }, q2)
                        },
                    }
                },
            }
        }
    }
}

/// `(params) => body`.
#[verifier::opaque]
pub open spec fn p_lambda(t: Seq<Token>, p: int, nc: bool, np: bool) -> Result<(SExprV, int), PErrV>
    decreases rest(t, p), 10int,
{
    if !(0 <= p < t.len()) || !(t[p].kind is LParen) {
        Err(err_at(t, p, "'('"@))
    } else {
        let ps = if t[p + 1].kind is RParen { Ok((Seq::<ParamV>::empty(), p + 1)) } else { p_params(t, p + 1) };
        match ps {
            Err(e) => Err(e),
            Ok((params, q)) => if q <= p {
                Err(err_at(t, p, "expression"@))
            } else if !(t[q].kind is RParen) {
                Err(err_at(t, q, "')'"@))
            } else if !(t[q + 1].kind is DArrow) {
                Err(err_at(t, q + 1, "'=>' in lambda"@))
            } else {
                match p_expr(t, q + 2, nc, np) {
                    Err(e) => Err(e),
                    Ok((body, q2)) => Ok((
                        SExprV {
                            node: ExprV::Lambda { params, body: Box::new(body) },
                            span: span_to(t[p].span, body.span.end),
                        },
                        q2,
                    )),
                }
            },
        }
    }
}

/// `let x [: T] = e, ... in body`.
#[verifier::opaque]
pub open spec fn p_let(t: Seq<Token>, p: int, nc: bool, np: bool) -> Result<(SExprV, int), PErrV>
    decreases rest(t, p), 10int,
{
    if !(0 <= p < t.len()) || !(t[p].kind is Let) {
        Err(err_at(t, p, "'let'"@))
    } else {
        match p_bindings(t, p + 1, Seq::empty(), nc, np) {
            Err(e) => Err(e),
            Ok((bs, q)) => if q <= p {
                Err(err_at(t, p, "expression"@))
            } else if !(t[q].kind is In) {
                Err(err_at(t, q, "'in'"@))
            } else {
                match p_expr(t, q + 1, nc, np) {
                    Err(e) => Err(e),
                    Ok((body, q2)) => Ok((
                        SExprV {
                            node: ExprV::Let { bindings: bs, body: Box::new(body) },
                            span: span_to(t[p].span, body.span.end),
                        },
                        q2,
                    )),
                }
            },
        }
    }
}

/// Bindings `x [: T] = e` separated by commas from `p`, after `acc`.
#[verifier::opaque]
pub open spec fn p_bindings(t: Seq<Token>, p: int, acc: Seq<BindingV>, nc: bool, np: bool) -> Result<(Seq<BindingV>, int), PErrV>
    decreases rest(t, p), 0int,
{
    if !(0 <= p < t.len()) || !(t[p].kind is Ident) {
        Err(err_at(t, p, "variable name"@))
    } else {
        match p_ann(t, p + 1) {
            Err(e) => Err(e),
            Ok((ann, q)) => if q <= p {
                Err(err_at(t, p, "expression"@))
            } else if !(t[q].kind is Eq) {
                Err(err_at(t, q, "'='"@))
            } else {
                match p_expr(t, q + 1, nc, np) {
                    Err(e) => Err(e),
                    Ok((init, q2)) => if q2 <= p {
                        Err(err_at(t, p, "expression"@))
                    } else {
                        let b = BindingV {
                            name: t[p].kind->Ident_0,
                            type_ann: ann,
                            init,
                            span: span_to(t[p].span, init.span.end),
                        };
                        if t[q2].kind is Comma {
                            p_bindings(t, q2 + 1, acc.push(b), nc, np)
                        } else {
                            Ok((acc.push(b), q2))
                        }
                    },
                }
            },
        }
    }
}

/// `if (c) e [elif (c) e]* [else e]`.
#[verifier::opaque]
pub open spec fn p_if(t: Seq<Token>, p: int, nc: bool, np: bool) -> Result<(SExprV, int), PErrV>
    decreases rest(t, p), 10int,
{
    if !(0 <= p < t.len()) || !(t[p].kind is If) {
        Err(err_at(t, p, "'if'"@))
    } else if !(t[p + 1].kind is LParen) {
        Err(err_at(t, p + 1, "'('"@))
    } else {
        match p_expr(t, p + 2, nc, np) {
            Err(e) => Err(e),
            Ok((cond, q)) => if q <= p {
                Err(err_at(t, p, "expression"@))
            } else if !(t[q].kind is RParen) {
                Err(err_at(t, q, "')'"@))
            } else {
                match p_expr(t, q + 1, nc, np) {
                    Err(e) => Err(e),
                    Ok((then, q2)) => if q2 <= p {
                        Err(err_at(t, p, "expression"@))
                    } else {
                        match p_elifs(t, q2, Seq::empty(), nc, np) {
                            Err(e) => Err(e),
                            Ok((els, q3)) => if q3 < q2 {
                                Err(err_at(t, p, "expression"@))
                            } else if t[q3].kind is Else {
                                match p_expr(t, q3 + 1, nc, np) {
                                    Err(e) => Err(e),
                                    Ok((x, q4)) => Ok((
                                        SExprV {
                                            node: ExprV::If {
                                                cond: Box::new(cond),
                                                then: Box::new(then),
                                                elif_branches: els,
                                                else_branch: Some(Box::new(x)),
                                            },
                                            span: span_to(t[p].span, x.span.end),
                                        },
                                        q4,
                                    )),
                                }
                            } else {
                                Ok((
                                    SExprV {
                                        node: ExprV::If {
                                            cond: Box::new(cond),
                                            then: Box::new(then),
                                            elif_branches: els,
                                            else_branch: None,
                                        },
                                        span: span_to(
                                            t[p].span,
                                            if els.len() > 0 { els.last().1.span.end } else { then.span.end },
                                        ),
                                    },
                                    q3,
                                ))
                            },
                        }
                    },
                }
            },
        }
    }
}

/// After the branches `acc`, at `q`: more `elif (c) e`.
#[verifier::opaque]
pub open spec fn p_elifs(t: Seq<Token>, q: int, acc: Seq<(SExprV, SExprV)>, nc: bool, np: bool) -> Result<(Seq<(SExprV, SExprV)>, int), PErrV>
    decreases rest(t, q), 0int,
{
    if !(0 <= q < t.len()) || !(t[q].kind is Elif) {
        Ok((acc, q))
    } else if !(t[q + 1].kind is LParen) {
        Err(err_at(t, q + 1, "'('"@))
    } else {
        match p_expr(t, q + 2, nc, np) {
            Err(e) => Err(e),
            Ok((c, q2)) => if q2 <= q {
                Err(err_at(t, q, "expression"@))
            } else if !(t[q2].kind is RParen) {
                Err(err_at(t, q2, "')'"@))
            } else {
                match p_expr(t, q2 + 1, nc, np) {
                    Err(e) => Err(e),
                    Ok((b, q3)) => if q3 <= q {
                        Err(err_at(t, q, "expression"@))
                    } else {
                        p_elifs(t, q3, acc.push((c, b)), nc, np)
                    },
                }
            },
        }
    }
}

/// `while (c) body`.
#[verifier::opaque]
pub open spec fn p_while(t: Seq<Token>, p: int, nc: bool, np: bool) -> Result<(SExprV, int), PErrV>
    decreases rest(t, p), 10int,
{
    if !(0 <= p < t.len()) || !(t[p].kind is While) {
        Err(err_at(t, p, "'while'"@))
    } else if !(t[p + 1].kind is LParen) {
        Err(err_at(t, p + 1, "'('"@))
    } else {
        match p_expr(t, p + 2, nc, np) {
            Err(e) => Err(e),
            Ok((cond, q)) => if q <= p {
                Err(err_at(t, p, "expression"@))
            } else if !(t[q].kind is RParen) {
                Err(err_at(t, q, "')'"@))
            } else {
                match p_expr(t, q + 1, nc, np) {
                    Err(e) => Err(e),
                    Ok((body, q2)) => Ok((
                        SExprV {
                            node: ExprV::While { cond: Box::new(cond), body: Box::new(body) },
                            span: span_to(t[p].span, body.span.end),
                        },
                        q2,
                    )),
                }
            },
        }
    }
}

/// `for (x in e) body`.
#[verifier::opaque]
pub open spec fn p_for(t: Seq<Token>, p: int, nc: bool, np: bool) -> Result<(SExprV, int), PErrV>
    decreases rest(t, p), 10int,
{
    if !(0 <= p < t.len()) || !(t[p].kind is For) {
        Err(err_at(t, p, "'for'"@))
    } else if !(t[p + 1].kind is LParen) {
        Err(err_at(t, p + 1, "'('"@))
    } else if !(t[p + 2].kind is Ident) {
        Err(err_at(t, p + 2, "loop variable"@))
    } else if !(t[p + 3].kind is In) {
        Err(err_at(t, p + 3, "'in'"@))
    } else {
        match p_expr(t, p + 4, nc, np) {
            Err(e) => Err(e),
            Ok((it, q)) => if q <= p {
                Err(err_at(t, p, "expression"@))
            } else if !(t[q].kind is RParen) {
                Err(err_at(t, q, "')'"@))
            } else {
                match p_expr(t, q + 1, nc, np) {
                    Err(e) => Err(e),
                    Ok((body, q2)) => Ok((
                        SExprV {
                            node: ExprV::For {
                                var: t[p + 2].kind->Ident_0,
                                iter: Box::new(it),
                                body: Box::new(body),
                            },
                            span: span_to(t[p].span, body.span.end),
                        },
                        q2,
                    )),
                }
            },
        }
    }
}

/// `case e of { x: T -> body; ... }`.
#[verifier::opaque]
pub open spec fn p_case(t: Seq<Token>, p: int, nc: bool, np: bool) -> Result<(SExprV, int), PErrV>
    decreases rest(t, p), 10int,
{
    if !(0 <= p < t.len()) || !(t[p].kind is Case) {
        Err(err_at(t, p, "'case'"@))
    } else {
        match p_expr(t, p + 1, nc, np) {
            Err(e) => Err(e),
            Ok((x, q)) => if q <= p {
                Err(err_at(t, p, "expression"@))
            } else if !(t[q].kind is Of) {
                Err(err_at(t, q, "'of'"@))
            } else if !(t[q + 1].kind is LBrace) {
                Err(err_at(t, q + 1, "'{'"@))
            } else {
                match p_arms(t, q + 2, Seq::empty(), nc, np) {
                    Err(e) => Err(e),
                    Ok((arms, q2)) => if !(t[q2].kind is RBrace) {
                        Err(err_at(t, q2, "'}'"@))
                    } else {
                        closed_at(t, p, ExprV::Case { expr: Box::new(x), arms }, q2)
                    },
                }
            },
        }
    }
}

/// Arms `x: T -> body;` from `q`, after `acc`, until `}` or the end.
#[verifier::opaque]
pub open spec fn p_arms(t: Seq<Token>, q: int, acc: Seq<ArmV>, nc: bool, np: bool) -> Result<(Seq<ArmV>, int), PErrV>
    decreases rest(t, q), 0int,
{
    if !(0 <= q < t.len()) || t[q].kind is RBrace || t[q].kind is Eof {
        Ok((acc, q))
    } else if !(t[q].kind is Ident) {
        Err(err_at(t, q, "binding name"@))
    } else if !(t[q + 1].kind is Colon) {
        Err(err_at(t, q + 1, "':'"@))
    } else {
        match p_type(t, q + 2) {
            Err(e) => Err(e),
            Ok((ty, q2)) => if q2 <= q {
                Err(err_at(t, q, "expression"@))
            } else if !(t[q2].kind is Arrow) {
                Err(err_at(t, q2, "'->'"@))
            } else {
                match p_expr(t, q2 + 1, nc, np) {
                    Err(e) => Err(e),
                    Ok((body, q3)) => if q3 <= q {
                        Err(err_at(t, q, "expression"@))
                    } else if !(t[q3].kind is Semicolon) {
                        Err(err_at(t, q3, "';'"@))
                    } else {
                        let arm = ArmV {
                            binding: t[q].kind->Ident_0,
                            type_ann: ty,
                            body,
                            span: span_to(t[q].span, body.span.end),
                        };
                        p_arms(t, q3 + 1, acc.push(arm), nc, np)
                    },
                }
            },
        }
    }
}

/// `with (e as x) body else fallback`; `as` is not a cast inside the brackets.
#[verifier::opaque]
pub open spec fn p_with(t: Seq<Token>, p: int, nc: bool, np: bool) -> Result<(SExprV, int), PErrV>
    decreases rest(t, p), 10int,
{
    if !(0 <= p < t.len()) || !(t[p].kind is With) {
        Err(err_at(t, p, "'with'"@))
    } else if !(t[p + 1].kind is LParen) {
        Err(err_at(t, p + 1, "'('"@))
    } else {
        match p_expr(t, p + 2, true, np) {
            Err(e) => Err(e),
            Ok((x, q)) => if q <= p {
                Err(err_at(t, p, "expression"@))
            } else if !(t[q].kind is As) {
                Err(err_at(t, q, "'as'"@))
            } else if !(t[q + 1].kind is Ident) {
                Err(err_at(t, q + 1, "binding name"@))
            } else if !(t[q + 2].kind is RParen) {
                Err(err_at(t, q + 2, "')'"@))
            } else {
                match p_expr(t, q + 3, nc, np) {
                    Err(e) => Err(e),
                    Ok((body, q2)) => if q2 <= p {
                        Err(err_at(t, p, "expression"@))
                    } else if !(t[q2].kind is Else) {
                        Err(err_at(t, q2, "'else'"@))
                    } else {
                        match p_expr(t, q2 + 1, nc, np) {
                            Err(e) => Err(e),
                            Ok((fb, q3)) => Ok((
                                SExprV {
                                    node: ExprV::With {
                                        expr: Box::new(x),
                                        binding: t[q + 1].kind->Ident_0,
                                        body: Box::new(body),
                                        fallback: Box::new(fb),
                                    },
                                    span: span_to(t[p].span, fb.span.end),
                                },
                                q3,
                            )),
                        }
                    },
                }
            },
        }
    }
}

/// `new T(args)` or `new T[size] [{ init }]`.
#[verifier::opaque]
pub open spec fn p_new(t: Seq<Token>, p: int, nc: bool, np: bool) -> Result<(SExprV, int), PErrV>
    decreases rest(t, p), 10int,
{
    if !(0 <= p < t.len()) || !(t[p].kind is New) {
        Err(err_at(t, p, "'new'"@))
    } else if !(t[p + 1].kind is Ident) {
        Err(err_at(t, p + 1, "type name"@))
    } else if t[p + 2].kind is LBracket {
        let ty = t[p + 1].kind->Ident_0;
        match p_expr(t, p + 3, nc, np) {
            Err(e) => Err(e),
            Ok((size, q)) => if q <= p {
                Err(err_at(t, p, "expression"@))
            } else if !(t[q].kind is RBracket) {
                Err(err_at(t, q, "']'"@))
            } else if t[q + 1].kind is LBrace {
                match p_block(t, q + 1, nc, np) {
                    Err(e) => Err(e),
                    Ok((blk, q2)) => Ok((
                        SExprV {
                            node: ExprV::NewArray {
                                ty_name: ty,
                                size: Box::new(size),
                                init: Some(Box::new(blk)),
                            },
                            span: span_to(t[p].span, blk.span.end),
                        },
                        q2,
                    )),
                }
            } else {
                closed_at(t, p, ExprV::NewArray { ty_name: ty, size: Box::new(size), init: None }, q)
            }
        }
    } else if !(t[p + 2].kind is LParen) {
        Err(err_at(t, p + 2, "'('"@))
    } else {
        match p_args(t, p + 3, nc, np) {
            Err(e) => Err(e),
            Ok((args, q)) => if q <= p {
                Err(err_at(t, p, "expression"@))
            } else if !(t[q].kind is RParen) {
                Err(err_at(t, q, "')'"@))
            } else {
                closed_at(t, p, ExprV::New { ty_name: t[p + 1].kind->Ident_0, args }, q)
            },
        }
    }
}

/// `{ e1; e2; ... [en] }`.
#[verifier::opaque]
pub open spec fn p_block(t: Seq<Token>, p: int, nc: bool, np: bool) -> Result<(SExprV, int), PErrV>
    decreases rest(t, p), 10int,
{
    if !(0 <= p < t.len()) || !(t[p].kind is LBrace) {
        Err(err_at(t, p, "'{'"@))
    } else {
        match p_stmts(t, p + 1, Seq::empty(), nc, np) {
            Err(e) => Err(e),
            Ok((ss, q)) => if !(t[q].kind is RBrace) {
                Err(err_at(t, q, "'}'"@))
            } else {
                closed_at(t, p, ExprV::Block(ss), q)
            },
        }
    }
}

/// Statements from `q`, after `acc`: each ends with `;`, but the last may
/// not, and they stop at `}` or the end.
#[verifier::opaque]
pub open spec fn p_stmts(t: Seq<Token>, q: int, acc: Seq<SExprV>, nc: bool, np: bool) -> Result<(Seq<SExprV>, int), PErrV>
    decreases rest(t, q), 31int,
{
    if !(0 <= q < t.len()) || t[q].kind is RBrace || t[q].kind is Eof {
        Ok((acc, q))
    } else {
        match p_expr(t, q, nc, np) {
            Err(e) => Err(e),
            Ok((x, q2)) => if q2 <= q {
                Err(err_at(t, q, "expression"@))
            } else if t[q2].kind is Semicolon {
                p_stmts(t, q2 + 1, acc.push(x), nc, np)
            } else {
                Ok((acc.push(x), q2))
            },
        }
    }
}

/// `match (e) { case (pat) => body; ... default => body; }` from its `(` at
/// `p`; `start` is where the word `match` began. Without `default` the
/// default body is `null` over the whole form.
#[verifier::opaque]
pub open spec fn p_macro_match(t: Seq<Token>, p: int, start: Span, nc: bool, np: bool) -> Result<(SExprV, int), PErrV>
    decreases rest(t, p), 10int,
{
    if !(0 <= p < t.len()) || !(t[p].kind is LParen) {
        Err(err_at(t, p, "'('"@))
    } else {
        match p_expr(t, p + 1, nc, np) {
            Err(e) => Err(e),
            Ok((subject, q)) => if q <= p {
                Err(err_at(t, p, "expression"@))
            } else if !(t[q].kind is RParen) {
                Err(err_at(t, q, "')'"@))
            } else if !(t[q + 1].kind is LBrace) {
                Err(err_at(t, q + 1, "'{'"@))
            } else {
                match p_mcases(t, q + 2, Seq::empty(), None, nc, np) {
                    Err(e) => Err(e),
                    Ok((cases, dflt, q2)) => if !(t[q2].kind is RBrace) {
                        Err(err_at(t, q2, "'}'"@))
                    } else {
                        let sp = span_to(start, t[q2].span.end);
                        let d = match dflt {
                            Some(x) => x,
                            None => SExprV { node: ExprV::Null, span: sp },
                        };
                        Ok((
                            SExprV {
                                node: ExprV::MacroMatch {
                                    subject: Box::new(subject),
                                    cases,
                                    default_body: Box::new(d),
                                },
                                span: sp,
                            },
                            q2 + 1,
                        ))
                    },
                }
            },
        }
    }
}

/// Past an optional `;` at `q`.
pub open spec fn skip_semi(t: Seq<Token>, q: int) -> int {
    if t[q].kind is Semicolon { q + 1 } else { q }
}

/// The arms of a `match` form from `q`, after the cases `cs` and the default
/// `d` read so far; a later `default` replaces an earlier one.
#[verifier::opaque]
pub open spec fn p_mcases(
    t: Seq<Token>,
    q: int,
    cs: Seq<(SExprV, SExprV)>,
    d: Option<SExprV>,
    nc: bool,
    np: bool,
) -> Result<(Seq<(SExprV, SExprV)>, Option<SExprV>, int), PErrV>
    decreases rest(t, q), 0int,
{
    if !(0 <= q < t.len()) || t[q].kind is RBrace || t[q].kind is Eof {
        Ok((cs, d, q))
    } else if t[q].kind is Case {
        if !(t[q + 1].kind is LParen) {
            Err(err_at(t, q + 1, "'(' after case"@))
        } else {
            match p_expr(t, q + 2, nc, np) {
                Err(e) => Err(e),
                Ok((pat, q2)) => if q2 <= q {
                    Err(err_at(t, q, "expression"@))
                } else if !(t[q2].kind is RParen) {
                    Err(err_at(t, q2, "')' after pattern"@))
                } else if !(t[q2 + 1].kind is DArrow) {
                    Err(err_at(t, q2 + 1, "'=>'"@))
                } else {
                    match p_expr(t, q2 + 2, nc, np) {
                        Err(e) => Err(e),
                        Ok((body, q3)) => if q3 <= q {
                            Err(err_at(t, q, "expression"@))
                        } else {
                            p_mcases(t, skip_semi(t, q3), cs.push((pat, body)), d, nc, np)
                        },
                    }
                },
            }
        }
    } else if t[q].kind is Default {
        if !(t[q + 1].kind is DArrow) {
            Err(err_at(t, q + 1, "'=>'"@))
        } else {
            match p_expr(t, q + 2, nc, np) {
                Err(e) => Err(e),
                Ok((body, q3)) => if q3 <= q {
                    Err(err_at(t, q, "expression"@))
                } else {
                    p_mcases(t, skip_semi(t, q3), cs, Some(body), nc, np)
                },
            }
        }
    } else {
        Ok((cs, d, q))
    }
}

/// The view of an expression parse that stopped at `q`.
pub open spec fn expr_result(r: Result<ExprS, ParseError>, q: int) -> Result<(SExprV, int), PErrV> {
    match r {
        Ok(x) => Ok((eview(x), q)),
        Err(e) => Err(e@),
    }
}

/// The view of a parse of a list of expressions that stopped at `q`.
pub open spec fn list_result(r: Result<Vec<ExprS>, ParseError>, q: int) -> Result<(Seq<SExprV>, int), PErrV> {
    match r {
        Ok(x) => Ok((eviews(x@), q)),
        Err(e) => Err(e@),
    }
}

/// The view of a parse of parameters that stopped at `q`.
pub open spec fn params_result(r: Result<Vec<Param>, ParseError>, q: int) -> Result<(Seq<ParamV>, int), PErrV> {
    match r {
        Ok(x) => Ok((pviews(x@), q)),
        Err(e) => Err(e@),
    }
}

} // verus!
