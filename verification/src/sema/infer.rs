//! The second pass of the checker: the type of each expression, from the
//! types of its parts and the scopes it is checked in, and the errors found
//! on the way.
use vstd::prelude::*;
use crate::ast::{Expr, ExprS, UnaryOp, Binding, CaseArm, TypeExpr, Param, FunctionDecl, MacroDecl, MacroParam, ClassDecl, ClassMember, Program};
use crate::env::{Env, env_get, scope_get};
use super::builtins::opt_fsig;
use super::checker::{
    binary_errors_in, ctor_in, lemma_adds_none, lemma_adds_trans, lemma_only_errors_trans, Checker, ClassInfo, FuncInfo, ProtocolInfo, subtype_at, method_of, attr_in, named_type, resolve,
    subtype_depth_of, opt_view,
};
use super::decls::ann;
use super::error::{SemanticError, ErrV, err_views};
use crate::lexer::Span;
use crate::text::{push_str, str_eq, str_is};
use super::table::Table;
use super::types::{models, tv_name, Type, TypeV};

verus! {

/// What the type of an expression depends on besides its scopes.
pub ghost struct Ctx {
    pub cls: Table<ClassInfo>,
    pub ps: Table<ProtocolInfo>,
    pub fs: Table<FuncInfo>,
    pub cur: Option<Seq<char>>,
}

/// A scope by names and the models of their types.
pub open spec fn mscope(s: Seq<(String, Type)>) -> Seq<(Seq<char>, TypeV)> {
    s.map_values(|p: (String, Type)| (p.0@, p.1.model()))
}

/// Scopes by names and the models of their types.
pub open spec fn mframes(f: Seq<Seq<(String, Type)>>) -> Seq<Seq<(Seq<char>, TypeV)>> {
    f.map_values(|s: Seq<(String, Type)>| mscope(s))
}

/// The latest binding of `k` in one scope.
pub open spec fn mscope_get(s: Seq<(Seq<char>, TypeV)>, k: Seq<char>) -> Option<TypeV>
    decreases s.len(),
{
    if s.len() == 0 {
        None
    } else if s.last().0 == k {
        Some(s.last().1)
    } else {
        mscope_get(s.drop_last(), k)
    }
}

/// The binding of `k` seen from the innermost scope.
pub open spec fn menv_get(f: Seq<Seq<(Seq<char>, TypeV)>>, k: Seq<char>) -> Option<TypeV>
    decreases f.len(),
{
    if f.len() == 0 {
        None
    } else {
        match mscope_get(f.last(), k) {
            Some(t) => Some(t),
            None => menv_get(f.drop_last(), k),
        }
    }
}

/// `f` with `k` bound to `t` in its innermost scope.
pub open spec fn mdefine(f: Seq<Seq<(Seq<char>, TypeV)>>, k: Seq<char>, t: TypeV) -> Seq<Seq<(Seq<char>, TypeV)>> {
    f.update(f.len() - 1, f.last().push((k, t)))
}

/// `f` with a new innermost scope binding `k` to `t`.
pub open spec fn mbind(f: Seq<Seq<(Seq<char>, TypeV)>>, k: Seq<char>, t: TypeV) -> Seq<Seq<(Seq<char>, TypeV)>> {
    f.push(seq![(k, t)])
}

pub open spec fn sub_in(c: Ctx, a: TypeV, b: TypeV) -> bool {
    subtype_at(c.cls, c.ps, a, b, subtype_depth_of(c.cls, c.ps)) == Some(true)
}

/// The least common type of two branches.
pub open spec fn jn(c: Ctx, a: TypeV, b: TypeV) -> TypeV {
    if a == b {
        a
    } else if a is Unknown {
        b
    } else if b is Unknown {
        a
    } else if sub_in(c, a, b) {
        b
    } else if sub_in(c, b, a) {
        a
    } else {
        TypeV::Object
    }
}

/// The type of expression `e` checked in scopes `f`.
pub open spec fn ty_of(c: Ctx, e: ExprS, f: Seq<Seq<(Seq<char>, TypeV)>>) -> TypeV
    decreases e,
{
    match e.node {
        Expr::Number(_) => TypeV::Number,
        Expr::Bool(_) => TypeV::Boolean,
        Expr::Str(_) => TypeV::Str,
        Expr::Null => TypeV::Null,
        Expr::Self_ => match c.cur {
            Some(n) => TypeV::Named(n),
            None => TypeV::Unknown,
        },
        Expr::Var(name) => match menv_get(f, name@) {
            Some(t) => t,
            None => TypeV::Unknown,
        },
        Expr::Unary { op, .. } => match op {
            UnaryOp::Neg => TypeV::Number,
            UnaryOp::Not => TypeV::Boolean,
        },
        Expr::Binary { op, .. } => Checker::binary_type(op),
        Expr::Assign { value, .. } => ty_of(c, *value, f),
        Expr::Let { bindings, body } => {
            proof {
                assert(decreases_to!(e => e.node));
                assert(decreases_to!(bindings => bindings@));
            }
            ty_of(c, *body, let_frames(c, bindings@, f.push(Seq::empty())))
        },
        Expr::If { then, elif_branches, else_branch, .. } => {
            proof {
                assert(decreases_to!(elif_branches => elif_branches@));
            }
            let r = elif_join(c, elif_branches@, f, ty_of(c, *then, f));
            match else_branch {
                Some(eb) => jn(c, r, ty_of(c, *eb, f)),
                None => r,
            }
        },
        Expr::While { .. } => TypeV::Null,
        Expr::Block(stmts) => {
            proof {
                assert(decreases_to!(stmts => stmts@));
            }
            if stmts@.len() == 0 {
                TypeV::Null
            } else {
                ty_of(c, stmts@[stmts@.len() - 1], f.push(Seq::empty()))
            }
        },
        Expr::Call { callee, .. } => if callee@ == "range"@ {
            TypeV::Array(Box::new(TypeV::Number))
        } else if menv_get(f, callee@) == Some(TypeV::Object) || menv_get(f, callee@) == Some(TypeV::Unknown) {
            TypeV::Unknown
        } else {
            match opt_fsig(c.fs.spec_get(callee@)) {
                Some(sig) => sig.1,
                None => TypeV::Unknown,
            }
        },
        Expr::MethodCall { object, method, .. } => match method_of(c.cls, c.ps, ty_of(c, *object, f), method@) {
            Some(sig) => sig.1,
            None => TypeV::Unknown,
        },
        Expr::FieldAccess { object, field } => match ty_of(c, *object, f) {
            TypeV::Named(n) => match attr_in(c.cls, n, field@, c.cls.entries().len() + 1) {
                Some(t) => t,
                None => TypeV::Unknown,
            },
            _ => TypeV::Unknown,
        },
        Expr::Index { array, .. } => match ty_of(c, *array, f) {
            TypeV::Array(elem) => *elem,
            _ => TypeV::Unknown,
        },
        Expr::New { ty_name, .. } => if c.cls.has(ty_name@) {
            TypeV::Named(ty_name@)
        } else {
            TypeV::Unknown
        },
        Expr::NewArray { ty_name, .. } => TypeV::Array(Box::new(named_type(ty_name@))),
        Expr::Case { arms, .. } => {
            proof {
                assert(decreases_to!(arms => arms@));
            }
            case_join(c, arms@, f)
        },
        Expr::With { expr, binding, body, fallback } => jn(
            c,
            ty_of(c, *body, mbind(f, binding@, ty_of(c, *expr, f))),
            ty_of(c, *fallback, f),
        ),
        Expr::For { .. } => TypeV::Null,
        Expr::IsInstance { .. } => TypeV::Boolean,
        Expr::Cast { ty_name, .. } => if c.cls.has(ty_name@) {
            TypeV::Named(ty_name@)
        } else if ty_name@ == "Null"@ {
            TypeV::Named(ty_name@)
        } else {
            named_type(ty_name@)
        },
        Expr::VecLit { elements } => {
            proof {
                assert(decreases_to!(elements => elements@));
            }
            let t = vec_join(c, elements@, f);
            TypeV::Array(Box::new(if t is Unknown { TypeV::Object } else { t }))
        },
        Expr::VecComp { body, var, iter } => {
            let elem = match ty_of(c, *iter, f) {
                TypeV::Array(t) => *t,
                _ => TypeV::Unknown,
            };
            TypeV::Array(Box::new(ty_of(c, *body, mbind(f, var@, elem))))
        },
        Expr::Base { .. } => TypeV::Object,
        Expr::Lambda { .. } => TypeV::Object,
        Expr::MacroArgRef(_) => TypeV::Object,
        Expr::MacroArgName(_) => TypeV::Object,
        Expr::MacroMatch { .. } => TypeV::Object,
    }
}

/// The scopes after binding each of `bs` in turn in the innermost scope of
/// `f`, to its annotated type or else the type of its initializer.
pub open spec fn let_frames(c: Ctx, bs: Seq<Binding>, f: Seq<Seq<(Seq<char>, TypeV)>>) -> Seq<
    Seq<(Seq<char>, TypeV)>,
>
    decreases bs,
{
    if bs.len() == 0 {
        f
    } else {
        let prev = bs.subrange(0, bs.len() - 1);
        let b = bs[bs.len() - 1];
        let g = let_frames(c, prev, f);
        mdefine(g, b.name@, ann(b.type_ann, ty_of(c, b.init, g)))
    }
}

/// The join of `acc` with the types of the branches of `ps`.
pub open spec fn elif_join(c: Ctx, ps: Seq<(ExprS, ExprS)>, f: Seq<Seq<(Seq<char>, TypeV)>>, acc: TypeV) -> TypeV
    decreases ps,
{
    if ps.len() == 0 {
        acc
    } else {
        let prev = ps.subrange(0, ps.len() - 1);
        jn(c, elif_join(c, prev, f, acc), ty_of(c, ps[ps.len() - 1].1, f))
    }
}

/// The join of the types of the arms' bodies, each with its binding in scope.
pub open spec fn case_join(c: Ctx, arms: Seq<CaseArm>, f: Seq<Seq<(Seq<char>, TypeV)>>) -> TypeV
    decreases arms,
{
    if arms.len() == 0 {
        TypeV::Unknown
    } else {
        let prev = arms.subrange(0, arms.len() - 1);
        let a = arms[arms.len() - 1];
        jn(c, case_join(c, prev, f), ty_of(c, a.body, mbind(f, a.binding@, resolve(a.type_ann))))
    }
}

/// The join of the types of `es`, from Unknown.
pub open spec fn vec_join(c: Ctx, es: Seq<ExprS>, f: Seq<Seq<(Seq<char>, TypeV)>>) -> TypeV
    decreases es,
{
    if es.len() == 0 {
        TypeV::Unknown
    } else {
        let prev = es.subrange(0, es.len() - 1);
        jn(c, vec_join(c, prev, f), ty_of(c, es[es.len() - 1], f))
    }
}

/// An error when `t` may not stand where `expected` is wanted (Unknown never errs).
pub open spec fn expect_errs(c: Ctx, t: TypeV, expected: TypeV, span: Span) -> Seq<ErrV> {
    if !sub_in(c, t, expected) && !(t is Unknown) {
        seq![ErrV::TypeMismatch { expected, got: t, span }]
    } else {
        Seq::empty()
    }
}

/// The errors of a condition: its own, and one if it is not a Boolean.
pub open spec fn cond_errs(c: Ctx, cond: ExprS, f: Seq<Seq<(Seq<char>, TypeV)>>, span: Span) -> Seq<ErrV>
    decreases cond, 2nat,
{
    errs_of(c, cond, f) + cond_err(c, ty_of(c, cond, f), span)
}

/// An error when a condition of type `t` is not a Boolean.
pub open spec fn cond_err(c: Ctx, t: TypeV, span: Span) -> Seq<ErrV> {
    if !sub_in(c, t, TypeV::Boolean) && !(t is Unknown) {
        seq![ErrV::ConditionNotBoolean { got: t, span }]
    } else {
        Seq::empty()
    }
}

/// An error when the operand of `op`, of type `t`, is not of the type it needs.
pub open spec fn unary_err(c: Ctx, op: UnaryOp, t: TypeV, span: Span) -> Seq<ErrV> {
    match op {
        UnaryOp::Neg => if !sub_in(c, t, TypeV::Number) && !(t is Unknown) {
            seq![ErrV::NonNumericOperand { op: "-"@, got: t, span }]
        } else {
            Seq::empty()
        },
        UnaryOp::Not => if !sub_in(c, t, TypeV::Boolean) && !(t is Unknown) {
            seq![ErrV::NonBooleanOperand { op: "!"@, got: t, span }]
        } else {
            Seq::empty()
        },
    }
}

/// An error when `target` cannot be assigned to.
pub open spec fn target_err(target: ExprS) -> Seq<ErrV> {
    if target.node is Var || target.node is FieldAccess || target.node is Index {
        Seq::empty()
    } else {
        seq![ErrV::InvalidAssignTarget { span: target.span }]
    }
}

/// An error when a value of type `vt` cannot go to a target of type `tt`.
pub open spec fn assign_err(c: Ctx, tt: TypeV, vt: TypeV, span: Span) -> Seq<ErrV> {
    if vt is Null && (tt is Number || tt is Boolean) {
        seq![ErrV::NullAssignedToPrimitive { target_type: tt, span }]
    } else if !sub_in(c, vt, tt) && !(tt is Unknown) {
        seq![ErrV::TypeMismatch { expected: tt, got: vt, span }]
    } else {
        Seq::empty()
    }
}

/// An error when values of type `ot` have no method `method`.
pub open spec fn method_err(ot: TypeV, method: Seq<char>, span: Span) -> Seq<ErrV> {
    if ot is Unknown {
        Seq::empty()
    } else {
        seq![ErrV::UndefinedMethod { ty_name: tv_name(ot), method, span }]
    }
}

/// An error when values of type `ot` have no attribute `field`.
pub open spec fn field_err(c: Ctx, ot: TypeV, field: Seq<char>, span: Span) -> Seq<ErrV> {
    let found = match ot {
        TypeV::Named(n) => attr_in(c.cls, n, field, c.cls.entries().len() + 1) is Some,
        _ => false,
    };
    if !found && !(ot is Unknown) {
        seq![ErrV::UndefinedField { ty_name: tv_name(ot), field, span }]
    } else {
        Seq::empty()
    }
}

/// An error when a value of type `at` is indexed but is not an array.
pub open spec fn index_err(at: TypeV, span: Span) -> Seq<ErrV> {
    match at {
        TypeV::Array(_) | TypeV::Unknown => Seq::empty(),
        _ => seq![ErrV::TypeMismatch { expected: TypeV::Array(Box::new(TypeV::Unknown)), got: at, span }],
    }
}

/// An error when `range` gets other than one or two arguments.
pub open spec fn range_err(n: nat, span: Span) -> Seq<ErrV> {
    if n < 1 || n > 2 {
        seq![ErrV::ArityMismatch { name: "range"@, expected: 1, got: n as usize, span }]
    } else {
        Seq::empty()
    }
}

/// The types of the arguments of `range`: Numbers.
pub open spec fn numbers(n: nat) -> Seq<TypeV> {
    Seq::new(n, |i: int| TypeV::Number)
}

/// A nested expression's errors with an optional part.
pub open spec fn opt_errs(c: Ctx, o: Option<Box<ExprS>>, f: Seq<Seq<(Seq<char>, TypeV)>>) -> Seq<ErrV>
    decreases o, 0nat,
{
    match o {
        Some(b) => errs_of(c, *b, f),
        None => Seq::empty(),
    }
}

/// The errors of each of `es` in turn, all in scopes `f`.
pub open spec fn each_errs(c: Ctx, es: Seq<ExprS>, f: Seq<Seq<(Seq<char>, TypeV)>>) -> Seq<ErrV>
    decreases es, 0nat,
{
    if es.len() == 0 {
        Seq::empty()
    } else {
        let prev = es.subrange(0, es.len() - 1);
        each_errs(c, prev, f) + errs_of(c, es[es.len() - 1], f)
    }
}

/// The errors of arguments `args` passed to parameters of types `params`:
/// each argument's own, and a mismatch where it has a parameter it may not
/// stand for.
pub open spec fn typed_errs(c: Ctx, args: Seq<ExprS>, params: Seq<TypeV>, f: Seq<Seq<(Seq<char>, TypeV)>>) -> Seq<ErrV>
    decreases args, 0nat,
{
    if args.len() == 0 {
        Seq::empty()
    } else {
        let k = args.len() - 1;
        let t = ty_of(c, args[k], f);
        typed_errs(c, args.subrange(0, k), params, f) + errs_of(c, args[k], f) + if k < params.len() {
            expect_errs(c, t, params[k], args[k].span)
        } else {
            Seq::empty()
        }
    }
}

/// The errors of the bindings `bs` of a `let`, each checked with the ones
/// before it in scope, and of their annotations.
pub open spec fn let_errs(c: Ctx, bs: Seq<Binding>, f: Seq<Seq<(Seq<char>, TypeV)>>) -> Seq<ErrV>
    decreases bs, 0nat,
{
    if bs.len() == 0 {
        Seq::empty()
    } else {
        let prev = bs.subrange(0, bs.len() - 1);
        let b = bs[bs.len() - 1];
        let g = let_frames(c, prev, f);
        let_errs(c, prev, f) + errs_of(c, b.init, g) + match b.type_ann {
            Some(te) => expect_errs(c, ty_of(c, b.init, g), resolve(te), b.span),
            None => Seq::empty(),
        }
    }
}

/// The errors of the `elif` branches `ps`: conditions reported at `span`.
pub open spec fn elif_errs(c: Ctx, ps: Seq<(ExprS, ExprS)>, f: Seq<Seq<(Seq<char>, TypeV)>>, span: Span) -> Seq<ErrV>
    decreases ps, 0nat,
{
    if ps.len() == 0 {
        Seq::empty()
    } else {
        let prev = ps.subrange(0, ps.len() - 1);
        elif_errs(c, prev, f, span) + cond_errs(c, ps[ps.len() - 1].0, f, span) + errs_of(c, ps[ps.len() - 1].1, f)
    }
}

/// An arm's pattern type that names nothing known.
pub open spec fn arm_type_errs(c: Ctx, a: CaseArm) -> Seq<ErrV> {
    match a.type_ann {
        TypeExpr::Named(n) => if !c.cls.has(n@) && !(resolve(a.type_ann) is Number || resolve(a.type_ann) is Boolean
            || resolve(a.type_ann) is Str || resolve(a.type_ann) is Object) {
            seq![ErrV::UndefinedType { name: n@, span: a.span }]
        } else {
            Seq::empty()
        },
        _ => Seq::empty(),
    }
}

/// The errors of the arms of a `case`.
pub open spec fn case_errs(c: Ctx, arms: Seq<CaseArm>, f: Seq<Seq<(Seq<char>, TypeV)>>) -> Seq<ErrV>
    decreases arms, 0nat,
{
    if arms.len() == 0 {
        Seq::empty()
    } else {
        let prev = arms.subrange(0, arms.len() - 1);
        let a = arms[arms.len() - 1];
        case_errs(c, prev, f) + arm_type_errs(c, a) + errs_of(c, a.body, mbind(f, a.binding@, resolve(a.type_ann)))
    }
}

/// The errors of the pattern and body of each pair, in turn.
pub open spec fn pair_errs(c: Ctx, ps: Seq<(ExprS, ExprS)>, f: Seq<Seq<(Seq<char>, TypeV)>>) -> Seq<ErrV>
    decreases ps, 0nat,
{
    if ps.len() == 0 {
        Seq::empty()
    } else {
        let prev = ps.subrange(0, ps.len() - 1);
        pair_errs(c, prev, f) + errs_of(c, ps[ps.len() - 1].0, f) + errs_of(c, ps[ps.len() - 1].1, f)
    }
}

/// The scope of a lambda's parameters, by their annotations.
pub open spec fn param_scope(ps: Seq<Param>) -> Seq<(Seq<char>, TypeV)> {
    ps.map_values(|p: Param| (p.name@, ann(p.type_ann, TypeV::Unknown)))
}

/// An arity error when `expected` parameters meet `got` arguments.
pub open spec fn arity_errs(name: Seq<char>, expected: nat, got: nat, span: Span) -> Seq<ErrV> {
    if expected != got {
        seq![ErrV::ArityMismatch { name, expected: expected as usize, got: got as usize, span }]
    } else {
        Seq::empty()
    }
}

/// The errors the checker reports for expression `e` in scopes `f`, in order.
pub open spec fn errs_of(c: Ctx, e: ExprS, f: Seq<Seq<(Seq<char>, TypeV)>>) -> Seq<ErrV>
    decreases e, 1nat,
{
    let span = e.span;
    match e.node {
        Expr::Number(_) | Expr::Bool(_) | Expr::Str(_) | Expr::Null => Seq::empty(),
        Expr::Self_ => match c.cur {
            Some(_) => Seq::empty(),
            None => seq![ErrV::UndefinedVariable { name: "self"@, span }],
        },
        Expr::Var(name) => match menv_get(f, name@) {
            Some(_) => Seq::empty(),
            None => seq![ErrV::UndefinedVariable { name: name@, span }],
        },
        Expr::Unary { op, operand } => errs_of(c, *operand, f) + unary_err(c, op, ty_of(c, *operand, f), span),
        Expr::Binary { op, left, right } => errs_of(c, *left, f) + errs_of(c, *right, f) + binary_errors_in(
            c.cls,
            c.ps,
            op,
            ty_of(c, *left, f),
            ty_of(c, *right, f),
            span,
        ),
        Expr::Assign { target, value } => target_err(*target) + errs_of(c, *target, f) + errs_of(c, *value, f)
            + assign_err(c, ty_of(c, *target, f), ty_of(c, *value, f), span),
        Expr::Let { bindings, body } => {
            proof {
                assert(decreases_to!(e => e.node));
                assert(decreases_to!(bindings => bindings@));
            }
            let g = f.push(Seq::empty());
            let_errs(c, bindings@, g) + errs_of(c, *body, let_frames(c, bindings@, g))
        },
        Expr::If { cond, then, elif_branches, else_branch } => {
            proof {
                assert(decreases_to!(elif_branches => elif_branches@));
            }
            cond_errs(c, *cond, f, span) + errs_of(c, *then, f) + elif_errs(c, elif_branches@, f, span) + opt_errs(
                c,
                else_branch,
                f,
            )
        },
        Expr::While { cond, body } => cond_errs(c, *cond, f, span) + errs_of(c, *body, f),
        Expr::Block(stmts) => {
            proof {
                assert(decreases_to!(stmts => stmts@));
            }
            each_errs(c, stmts@, f.push(Seq::empty()))
        },
        Expr::Call { callee, args } => {
            proof {
                assert(decreases_to!(args => args@));
            }
            if callee@ == "range"@ {
                range_err(args@.len(), span) + typed_errs(c, args@, numbers(args@.len()), f)
            } else if menv_get(f, callee@) == Some(TypeV::Object) || menv_get(f, callee@) == Some(TypeV::Unknown) {
                each_errs(c, args@, f)
            } else {
                match opt_fsig(c.fs.spec_get(callee@)) {
                    None => seq![ErrV::UndefinedFunction { name: callee@, span }] + each_errs(c, args@, f),
                    Some(sig) => arity_errs(callee@, sig.0.len(), args@.len(), span) + typed_errs(c, args@, sig.0, f),
                }
            }
        },
        Expr::MethodCall { object, method, args } => {
            proof {
                assert(decreases_to!(args => args@));
            }
            let ot = ty_of(c, *object, f);
            errs_of(c, *object, f) + match method_of(c.cls, c.ps, ot, method@) {
                None => method_err(ot, method@, span) + each_errs(c, args@, f),
                Some(sig) => arity_errs(tv_name(ot) + "."@ + method@, sig.0.len(), args@.len(), span) + typed_errs(
                    c,
                    args@,
                    sig.0,
                    f,
                ),
            }
        },
        Expr::FieldAccess { object, field } => errs_of(c, *object, f) + field_err(c, ty_of(c, *object, f), field@, span),
        Expr::Index { array, index } => errs_of(c, *array, f) + errs_of(c, *index, f) + expect_errs(
            c,
            ty_of(c, *index, f),
            TypeV::Number,
            index.span,
        ) + index_err(ty_of(c, *array, f), array.span),
        Expr::New { ty_name, args } => {
            proof {
                assert(decreases_to!(args => args@));
            }
            if !c.cls.has(ty_name@) {
                seq![ErrV::UndefinedClass { name: ty_name@, span }] + each_errs(c, args@, f)
            } else {
                let ps = ctor_in(c.cls, ty_name@, c.cls.entries().len() + 1);
                arity_errs("new "@ + ty_name@, ps.len(), args@.len(), span) + typed_errs(c, args@, ps, f)
            }
        },
        Expr::NewArray { size, init, .. } => errs_of(c, *size, f) + expect_errs(
            c,
            ty_of(c, *size, f),
            TypeV::Number,
            size.span,
        ) + opt_errs(c, init, f),
        Expr::Case { expr, arms } => {
            proof {
                assert(decreases_to!(arms => arms@));
            }
            errs_of(c, *expr, f) + case_errs(c, arms@, f)
        },
        Expr::With { expr, binding, body, fallback } => errs_of(c, *expr, f) + errs_of(
            c,
            *body,
            mbind(f, binding@, ty_of(c, *expr, f)),
        ) + errs_of(c, *fallback, f),
        Expr::For { var, iter, body } => {
            let elem = match ty_of(c, *iter, f) {
                TypeV::Array(t) => *t,
                TypeV::Unknown => TypeV::Unknown,
                _ => TypeV::Object,
            };
            errs_of(c, *iter, f) + errs_of(c, *body, mbind(f, var@, elem))
        },
        Expr::IsInstance { expr, .. } => errs_of(c, *expr, f),
        Expr::Cast { expr, .. } => errs_of(c, *expr, f),
        Expr::VecLit { elements } => {
            proof {
                assert(decreases_to!(elements => elements@));
            }
            each_errs(c, elements@, f)
        },
        Expr::VecComp { body, var, iter } => {
            let elem = match ty_of(c, *iter, f) {
                TypeV::Array(t) => *t,
                _ => TypeV::Unknown,
            };
            errs_of(c, *iter, f) + errs_of(c, *body, mbind(f, var@, elem))
        },
        Expr::Base { args } => {
            proof {
                assert(decreases_to!(args => args@));
            }
            each_errs(c, args@, f)
        },
        Expr::Lambda { params, body } => errs_of(c, *body, f.push(param_scope(params@))),
        Expr::MacroArgRef(_) | Expr::MacroArgName(_) => Seq::empty(),
        Expr::MacroMatch { subject, cases, default_body } => {
            proof {
                assert(decreases_to!(cases => cases@));
            }
            errs_of(c, *subject, f) + pair_errs(c, cases@, f) + errs_of(c, *default_body, f)
        },
    }
}

pub proof fn lemma_mscope_get(s: Seq<(String, Type)>, k: Seq<char>)
    ensures
        mscope_get(mscope(s), k) == match scope_get(s, k) {
            Some(t) => Some(t.model()),
            None => None,
        },
    decreases s.len(),
{
    if s.len() > 0 {
        assert(mscope(s).drop_last() =~= mscope(s.drop_last()));
        lemma_mscope_get(s.drop_last(), k);
    }
}

/// Looking a name up in the model of scopes agrees with looking it up in the scopes.
pub proof fn lemma_menv_get(f: Seq<Seq<(String, Type)>>, k: Seq<char>)
    ensures
        menv_get(mframes(f), k) == match env_get(f, k) {
            Some(t) => Some(t.model()),
            None => None,
        },
    decreases f.len(),
{
    if f.len() > 0 {
        assert(mframes(f).drop_last() =~= mframes(f.drop_last()));
        assert(mframes(f).last() == mscope(f.last()));
        lemma_mscope_get(f.last(), k);
        lemma_menv_get(f.drop_last(), k);
    }
}

pub proof fn lemma_mframes_push(f: Seq<Seq<(String, Type)>>, s: Seq<(String, Type)>)
    ensures
        mframes(f.push(s)) == mframes(f).push(mscope(s)),
{
    assert(mframes(f.push(s)) =~= mframes(f).push(mscope(s)));
}

/// The frames that `Env::define` leaves are those `mdefine` describes.
pub proof fn lemma_mframes_define(f0: Seq<Seq<(String, Type)>>, f1: Seq<Seq<(String, Type)>>, k: Seq<char>, t: Type)
    requires
        f0.len() > 0,
        f1.len() == f0.len(),
        f1.drop_last() == f0.drop_last(),
        f1.last().len() == f0.last().len() + 1,
        f1.last().drop_last() == f0.last(),
        f1.last().last().0@ == k,
        f1.last().last().1 == t,
    ensures
        mframes(f1) == mdefine(mframes(f0), k, t.model()),
{
    let n = f0.len() - 1;
    assert(mscope(f1.last()) =~= mscope(f0.last()).push((k, t.model())));
    assert forall|i: int| 0 <= i < n implies f1[i] == f0[i] by {
        assert(f1.drop_last()[i] == f0.drop_last()[i]);
    }
    assert(mframes(f1) =~= mdefine(mframes(f0), k, t.model()));
}

impl Checker {
    /// What the types of expressions depend on, besides their scopes.
    pub open spec fn ctx(&self) -> Ctx {
        Ctx { cls: self.classes, ps: self.protocols, fs: self.functions, cur: opt_view(self.current_class) }
    }

}

impl Checker {
    /// Checks each expression of `v` in turn, for its errors.
    #[verifier::loop_isolation(false)]
    fn check_each(&mut self, v: &Vec<ExprS>, env: &mut Env<Type>)
        ensures
            final(env).frames() == old(env).frames(),
            final(self).adds(old(self), each_errs(old(self).ctx(), v@, mframes(old(env).frames()))),
        decreases v,
    {
        let ghost c = self.ctx();
        let ghost fr = mframes(env.frames());
        proof {
            lemma_adds_none(old(self));
            assert(v@.take(0) =~= Seq::<ExprS>::empty());
        }
        let mut i: usize = 0;
        while i < v.len()
            invariant
                i <= v@.len(),
                env.frames() == old(env).frames(),
                c == old(self).ctx(),
                fr == mframes(old(env).frames()),
                self.adds(old(self), each_errs(c, v@.take(i as int), fr)),
            decreases v.len() - i,
        {
            proof {
                assert(decreases_to!(v@ => v@[i as int]));
                assert(decreases_to!(*v => v@));
                let pre = v@.take(i + 1);
                assert(pre.subrange(0, pre.len() - 1) =~= v@.take(i as int));
                assert(pre[pre.len() - 1] == v@[i as int]);
            }
            let ghost s0 = *self;
            self.check_expr(&v[i], env);
            proof {
                lemma_adds_trans(old(self), &s0, self, each_errs(c, v@.take(i as int), fr), errs_of(c, v@[i as int], fr));
            }
            i += 1;
        }
        proof {
            assert(v@.take(i as int) =~= v@);
        }
    }

    /// Checks `args` against parameter types `params`: each argument that has a
    /// parameter must be a subtype of it; arguments past the parameters are
    /// checked for their own errors.
    #[verifier::loop_isolation(false)]
    fn check_typed_args(&mut self, args: &Vec<ExprS>, params: &Vec<Type>, env: &mut Env<Type>)
        ensures
            final(env).frames() == old(env).frames(),
            final(self).adds(old(self), typed_errs(old(self).ctx(), args@, models(params@), mframes(old(env).frames()))),
        decreases args,
    {
        let ghost c = self.ctx();
        let ghost fr = mframes(env.frames());
        let ghost ps = models(params@);
        proof {
            lemma_adds_none(old(self));
            assert(args@.take(0) =~= Seq::<ExprS>::empty());
        }
        let mut i: usize = 0;
        while i < args.len()
            invariant
                i <= args@.len(),
                env.frames() == old(env).frames(),
                c == old(self).ctx(),
                fr == mframes(old(env).frames()),
                ps == models(params@),
                self.adds(old(self), typed_errs(c, args@.take(i as int), ps, fr)),
            decreases args.len() - i,
        {
            proof {
                assert(decreases_to!(args@ => args@[i as int]));
                assert(decreases_to!(*args => args@));
                let pre = args@.take(i + 1);
                assert(pre.subrange(0, pre.len() - 1) =~= args@.take(i as int));
                assert(pre[pre.len() - 1] == args@[i as int]);
            }
            let ghost s0 = *self;
            let t = self.check_expr(&args[i], env);
            let ghost s1 = *self;
            proof {
                lemma_adds_trans(
                    old(self),
                    &s0,
                    &s1,
                    typed_errs(c, args@.take(i as int), ps, fr),
                    errs_of(c, args@[i as int], fr),
                );
            }
            if i < params.len() {
                self.expect_type(&t, &params[i], args[i].span);
                proof {
                    lemma_adds_trans(
                        old(self),
                        &s1,
                        self,
                        typed_errs(c, args@.take(i as int), ps, fr) + errs_of(c, args@[i as int], fr),
                        expect_errs(c, t.model(), ps[i as int], args@[i as int].span),
                    );
                }
            } else {
                proof {
                    lemma_adds_none(&s1);
                    lemma_adds_trans(
                        old(self),
                        &s1,
                        self,
                        typed_errs(c, args@.take(i as int), ps, fr) + errs_of(c, args@[i as int], fr),
                        Seq::empty(),
                    );
                }
            }
            i += 1;
        }
        proof {
            assert(args@.take(i as int) =~= args@);
        }
    }

    /// Checks a condition, which must be a Boolean.
    fn check_condition(&mut self, cond: &ExprS, env: &mut Env<Type>, span: Span)
        ensures
            final(env).frames() == old(env).frames(),
            final(self).adds(old(self), cond_errs(old(self).ctx(), *cond, mframes(old(env).frames()), span)),
        decreases cond, 2nat,
    {
        let ghost c = self.ctx();
        let ghost fr = mframes(env.frames());
        let t = self.check_expr(cond, env);
        let ghost s1 = *self;
        let ghost tm = t.model();
        if !self.is_subtype(&t, &Type::Boolean) && !matches!(t, Type::Unknown) {
            self.add_error(SemanticError::ConditionNotBoolean { got: t, span });
        } else {
            proof {
                lemma_adds_none(&s1);
            }
        }
        proof {
            lemma_adds_trans(old(self), &s1, self, errs_of(c, *cond, fr), cond_err(c, tm, span));
        }
    }

    /// Reports a mismatch unless `t` is a subtype of `expected` or Unknown.
    fn expect_type(&mut self, t: &Type, expected: &Type, span: Span)
        ensures
            final(self).adds(old(self), expect_errs(old(self).ctx(), t.model(), expected.model(), span)),
    {
        if !self.is_subtype(t, expected) && !matches!(t, Type::Unknown) {
            self.add_error(SemanticError::TypeMismatch { expected: expected.copy(), got: t.copy(), span });
        } else {
            proof {
                lemma_adds_none(old(self));
            }
        }
    }

    /// Appends `e`, keeping everything else.
    fn add_error(&mut self, e: SemanticError)
        ensures
            final(self).errors@ == old(self).errors@.push(e),
            final(self).adds(old(self), seq![e@]),
    {
        self.errors.push(e);
        proof {
            assert(err_views(self.errors@) =~= err_views(old(self).errors@) + seq![e@]);
        }
    }

    /// An assignment: its target must be assignable and take the value's type.
    fn check_assign(&mut self, es: &ExprS, env: &mut Env<Type>) -> (r: Type)
        requires
            es.node is Assign,
        ensures
            r.model() == ty_of(old(self).ctx(), *es, mframes(old(env).frames())),
            final(env).frames() == old(env).frames(),
            final(self).adds(old(self), errs_of(old(self).ctx(), *es, mframes(old(env).frames()))),
        decreases es, 0nat,
    {
        let ghost c = self.ctx();
        let ghost fr = mframes(env.frames());
        let span = es.span;
        match &es.node {
            Expr::Assign { target, value } => {
                match &target.node {
                    Expr::Var(_) | Expr::FieldAccess { .. } | Expr::Index { .. } => {
                        proof {
                            lemma_adds_none(old(self));
                        }
                    },
                    _ => {
                        self.add_error(SemanticError::InvalidAssignTarget { span: target.span });
                    },
                }
                let ghost x0 = target_err(**target);
                let ghost s1 = *self;
                let target_ty = self.check_expr(target, env);
                let ghost s2 = *self;
                let ghost x1 = x0 + errs_of(c, **target, fr);
                proof {
                    lemma_adds_trans(old(self), &s1, &s2, x0, errs_of(c, **target, fr));
                }
                let value_ty = self.check_expr(value, env);
                let ghost s3 = *self;
                let ghost x2 = x1 + errs_of(c, **value, fr);
                let ghost tt = target_ty.model();
                let ghost vt = value_ty.model();
                proof {
                    lemma_adds_trans(old(self), &s2, &s3, x1, errs_of(c, **value, fr));
                }
                if matches!(value_ty, Type::Null) && target_ty.is_primitive() {
                    self.add_error(SemanticError::NullAssignedToPrimitive { target_type: target_ty.copy(), span });
                } else if !self.is_subtype(&value_ty, &target_ty) && !matches!(target_ty, Type::Unknown) {
                    self.add_error(SemanticError::TypeMismatch { expected: target_ty, got: value_ty.copy(), span });
                } else {
                    proof {
                        lemma_adds_none(&s3);
                    }
                }
                proof {
                    lemma_adds_trans(old(self), &s3, self, x2, assign_err(c, tt, vt, span));
                }
                value_ty
            },
            _ => Type::Unknown,
        }
    }

    /// A `let`: each binding in turn in a new scope, then the body.
    #[verifier::loop_isolation(false)]
    #[verifier::rlimit(40)]
    #[verifier::spinoff_prover]
    fn check_let(&mut self, es: &ExprS, env: &mut Env<Type>) -> (r: Type)
        requires
            es.node is Let,
        ensures
            r.model() == ty_of(old(self).ctx(), *es, mframes(old(env).frames())),
            final(env).frames() == old(env).frames(),
            final(self).adds(old(self), errs_of(old(self).ctx(), *es, mframes(old(env).frames()))),
        decreases es, 0nat,
    {
        let ghost c = self.ctx();
        let ghost f0 = env.frames();
        let ghost fr = mframes(f0);
        let ghost g = fr.push(Seq::empty());
        match &es.node {
            Expr::Let { bindings, body } => {
                env.push();
                proof {
                    lemma_mframes_push(f0, Seq::empty());
                    assert(mscope(Seq::<(String, Type)>::empty()) =~= Seq::empty());
                    assert(bindings@.take(0) =~= Seq::<Binding>::empty());
                    lemma_adds_none(old(self));
                }
                let mut i: usize = 0;
                while i < bindings.len()
                    invariant
                        i <= bindings@.len(),
                        env.frames().len() == f0.len() + 1,
                        env.frames().drop_last() == f0,
                        mframes(env.frames()) == let_frames(c, bindings@.take(i as int), g),
                        self.adds(old(self), let_errs(c, bindings@.take(i as int), g)),
                        c == old(self).ctx(),
                        g == mframes(f0).push(Seq::empty()),
                    decreases bindings.len() - i,
                {
                    let b = &bindings[i];
                    let ghost prev = bindings@.take(i as int);
                    proof {
                        assert(decreases_to!(bindings@ => bindings@[i as int]));
                        assert(decreases_to!(*bindings => bindings@));
                        assert(decreases_to!(es.node => *bindings));
                        assert(decreases_to!(*es => bindings@[i as int].init));
                        let pre = bindings@.take(i + 1);
                        assert(pre.subrange(0, pre.len() - 1) =~= prev);
                        assert(pre[pre.len() - 1] == bindings@[i as int]);
                    }
                    let ghost fb = env.frames();
                    let ghost gb = let_frames(c, prev, g);
                    let ghost s0 = *self;
                    let init_ty = self.check_expr(&b.init, env);
                    let ghost s1 = *self;
                    proof {
                        lemma_adds_trans(old(self), &s0, &s1, let_errs(c, prev, g), errs_of(c, b.init, gb));
                    }
                    let declared: Option<Type> = match &b.type_ann {
                        Some(te) => Some(self.resolve_type(te)),
                        None => None,
                    };
                    let ghost s2 = *self;
                    let eff = match declared {
                        Some(d) => {
                            self.expect_type(&init_ty, &d, b.span);
                            d
                        },
                        None => {
                            proof {
                                lemma_adds_none(&s2);
                            }
                            init_ty
                        },
                    };
                    proof {
                        let bv = bindings@[i as int];
                        let extra = match bv.type_ann {
                            Some(te) => expect_errs(c, ty_of(c, bv.init, gb), resolve(te), bv.span),
                            None => Seq::empty(),
                        };
                        lemma_adds_trans(old(self), &s2, self, let_errs(c, prev, g) + errs_of(c, bv.init, gb), extra);
                    }
                    env.define(b.name.as_str(), eff);
                    proof {
                        lemma_mframes_define(fb, env.frames(), b.name@, eff);
                    }
                    i += 1;
                }
                proof {
                    assert(bindings@.take(i as int) =~= bindings@);
                }
                let ghost s3 = *self;
                let result = self.check_expr(body, env);
                proof {
                    lemma_adds_trans(
                        old(self),
                        &s3,
                        self,
                        let_errs(c, bindings@, g),
                        errs_of(c, **body, let_frames(c, bindings@, g)),
                    );
                }
                env.pop();
                result
            },
            _ => Type::Unknown,
        }
    }

    /// An `if`: Boolean conditions; the join of the branches' types.
    #[verifier::loop_isolation(false)]
    fn check_if(&mut self, es: &ExprS, env: &mut Env<Type>) -> (r: Type)
        requires
            es.node is If,
        ensures
            r.model() == ty_of(old(self).ctx(), *es, mframes(old(env).frames())),
            final(env).frames() == old(env).frames(),
            final(self).adds(old(self), errs_of(old(self).ctx(), *es, mframes(old(env).frames()))),
        decreases es, 0nat,
    {
        let ghost c = self.ctx();
        let ghost fr = mframes(env.frames());
        let span = es.span;
        match &es.node {
            Expr::If { cond, then, elif_branches, else_branch } => {
                self.check_condition(cond, env, span);
                let ghost s1 = *self;
                let ghost x1 = cond_errs(c, **cond, fr, span);
                let mut result = self.check_expr(then, env);
                let ghost x2 = x1 + errs_of(c, **then, fr);
                proof {
                    lemma_adds_trans(old(self), &s1, self, x1, errs_of(c, **then, fr));
                    assert(elif_branches@.take(0) =~= Seq::<(ExprS, ExprS)>::empty());
                    assert(x2 + elif_errs(c, Seq::<(ExprS, ExprS)>::empty(), fr, span) =~= x2);
                }
                let ghost then_ty = result.model();
                let mut i: usize = 0;
                while i < elif_branches.len()
                    invariant
                        i <= elif_branches@.len(),
                        env.frames() == old(env).frames(),
                        self.adds(old(self), x2 + elif_errs(c, elif_branches@.take(i as int), fr, span)),
                        c == old(self).ctx(),
                        fr == mframes(old(env).frames()),
                        result.model() == elif_join(c, elif_branches@.take(i as int), fr, then_ty),
                    decreases elif_branches.len() - i,
                {
                    let ghost prev = elif_branches@.take(i as int);
                    proof {
                        assert(decreases_to!(elif_branches@ => elif_branches@[i as int]));
                        assert(decreases_to!(*elif_branches => elif_branches@));
                        assert(decreases_to!(es.node => *elif_branches));
                        assert(decreases_to!(*es => elif_branches@[i as int].0));
                        assert(decreases_to!(*es => elif_branches@[i as int].1));
                        let pre = elif_branches@.take(i + 1);
                        assert(pre.subrange(0, pre.len() - 1) =~= prev);
                        assert(pre[pre.len() - 1] == elif_branches@[i as int]);
                    }
                    let ghost s2 = *self;
                    self.check_condition(&elif_branches[i].0, env, span);
                    let ghost s3 = *self;
                    let eb_ty = self.check_expr(&elif_branches[i].1, env);
                    result = self.join(&result, &eb_ty);
                    proof {
                        let a = elif_errs(c, prev, fr, span);
                        let p = cond_errs(c, elif_branches@[i as int].0, fr, span);
                        let q = errs_of(c, elif_branches@[i as int].1, fr);
                        lemma_adds_trans(old(self), &s2, &s3, x2 + a, p);
                        lemma_adds_trans(old(self), &s3, self, x2 + a + p, q);
                        assert(x2 + a + p + q =~= x2 + (a + p + q));
                    }
                    i += 1;
                }
                proof {
                    assert(elif_branches@.take(i as int) =~= elif_branches@);
                }
                let ghost x3 = x2 + elif_errs(c, elif_branches@, fr, span);
                match else_branch {
                    Some(eb) => {
                        let ghost s4 = *self;
                        let eb_ty = self.check_expr(eb, env);
                        proof {
                            lemma_adds_trans(old(self), &s4, self, x3, errs_of(c, **eb, fr));
                            assert(opt_errs(c, *else_branch, fr) == errs_of(c, **eb, fr));
                            assert(errs_of(c, *es, fr) == x3 + opt_errs(c, *else_branch, fr));
                        }
                        self.join(&result, &eb_ty)
                    },
                    None => {
                        proof {
                            assert(x3 + Seq::<ErrV>::empty() =~= x3);
                            assert(opt_errs(c, *else_branch, fr) == Seq::<ErrV>::empty());
                            assert(errs_of(c, *es, fr) == x3 + opt_errs(c, *else_branch, fr));
                        }
                        result
                    },
                }
            },
            _ => Type::Unknown,
        }
    }

    /// A block: its statements in a new scope; the type of the last, or Null.
    #[verifier::loop_isolation(false)]
    fn check_block(&mut self, es: &ExprS, env: &mut Env<Type>) -> (r: Type)
        requires
            es.node is Block,
        ensures
            r.model() == ty_of(old(self).ctx(), *es, mframes(old(env).frames())),
            final(env).frames() == old(env).frames(),
            final(self).adds(old(self), errs_of(old(self).ctx(), *es, mframes(old(env).frames()))),
        decreases es, 0nat,
    {
        let ghost c = self.ctx();
        let ghost f0 = env.frames();
        let ghost fr = mframes(f0);
        match &es.node {
            Expr::Block(stmts) => {
                env.push();
                proof {
                    lemma_mframes_push(f0, Seq::empty());
                    assert(mscope(Seq::<(String, Type)>::empty()) =~= Seq::empty());
                    lemma_adds_none(old(self));
                    assert(stmts@.take(0) =~= Seq::<ExprS>::empty());
                }
                let mut ty = Type::Null;
                let mut i: usize = 0;
                while i < stmts.len()
                    invariant
                        i <= stmts@.len(),
                        env.frames() == f0.push(Seq::empty()),
                        mframes(env.frames()) == fr.push(Seq::empty()),
                        self.adds(old(self), each_errs(c, stmts@.take(i as int), fr.push(Seq::empty()))),
                        c == old(self).ctx(),
                        ty.model() == if i == 0 {
                            TypeV::Null
                        } else {
                            ty_of(c, stmts@[i - 1], fr.push(Seq::empty()))
                        },
                    decreases stmts.len() - i,
                {
                    proof {
                        assert(decreases_to!(stmts@ => stmts@[i as int]));
                        assert(decreases_to!(*stmts => stmts@));
                        assert(decreases_to!(es.node => *stmts));
                        assert(decreases_to!(*es => stmts@[i as int]));
                        let pre = stmts@.take(i + 1);
                        assert(pre.subrange(0, pre.len() - 1) =~= stmts@.take(i as int));
                        assert(pre[pre.len() - 1] == stmts@[i as int]);
                    }
                    let ghost s0 = *self;
                    ty = self.check_expr(&stmts[i], env);
                    proof {
                        lemma_adds_trans(
                            old(self),
                            &s0,
                            self,
                            each_errs(c, stmts@.take(i as int), fr.push(Seq::empty())),
                            errs_of(c, stmts@[i as int], fr.push(Seq::empty())),
                        );
                    }
                    i += 1;
                }
                env.pop();
                proof {
                    assert(f0.push(Seq::empty()).drop_last() =~= f0);
                    assert(stmts@.take(i as int) =~= stmts@);
                }
                ty
            },
            _ => Type::Unknown,
        }
    }

    /// A call: `range` with one or two Numbers; a function value in scope; a
    /// declared function, whose arity and parameter types the arguments meet.
    fn check_call(&mut self, es: &ExprS, env: &mut Env<Type>) -> (r: Type)
        requires
            es.node is Call,
        ensures
            r.model() == ty_of(old(self).ctx(), *es, mframes(old(env).frames())),
            final(env).frames() == old(env).frames(),
            final(self).adds(old(self), errs_of(old(self).ctx(), *es, mframes(old(env).frames()))),
        decreases es, 0nat,
    {
        let ghost c = self.ctx();
        let ghost f0 = env.frames();
        let ghost fr = mframes(f0);
        let span = es.span;
        match &es.node {
            Expr::Call { callee, args } => {
                if str_eq(callee.as_str(), "range") {
                    if args.len() < 1 || args.len() > 2 {
                        self.add_error(SemanticError::ArityMismatch {
                            name: "range".to_owned(),
                            expected: 1,
                            got: args.len(),
                            span,
                        });
                    } else {
                        proof {
                            lemma_adds_none(old(self));
                        }
                    }
                    let ghost s1 = *self;
                    let mut nums: Vec<Type> = Vec::new();
                    let mut k: usize = 0;
                    while k < args.len()
                        invariant
                            k <= args@.len(),
                            nums@.len() == k,
                            forall|j: int| 0 <= j < k ==> nums@[j] == Type::Number,
                        decreases args.len() - k,
                    {
                        nums.push(Type::Number);
                        k += 1;
                    }
                    proof {
                        assert(models(nums@) =~= numbers(args@.len()));
                    }
                    self.check_typed_args(args, &nums, env);
                    proof {
                        lemma_adds_trans(
                            old(self),
                            &s1,
                            self,
                            range_err(args@.len(), span),
                            typed_errs(c, args@, numbers(args@.len()), fr),
                        );
                    }
                    return Type::Array(Box::new(Type::Number));
                }
                proof {
                    lemma_menv_get(f0, callee@);
                }
                let in_scope = match env.lookup(callee.as_str()) {
                    Some(t) => matches!(t, Type::Object | Type::Unknown),
                    None => false,
                };
                if in_scope {
                    self.check_each(args, env);
                    return Type::Unknown;
                }
                let info: Option<FuncInfo> = match self.functions.get(callee.as_str()) {
                    Some(i) => Some(i.copy()),
                    None => None,
                };
                match info {
                    None => {
                        self.add_error(SemanticError::UndefinedFunction { name: callee.clone(), span });
                        let ghost s1 = *self;
                        self.check_each(args, env);
                        proof {
                            lemma_adds_trans(
                                old(self),
                                &s1,
                                self,
                                seq![ErrV::UndefinedFunction { name: callee@, span }],
                                each_errs(c, args@, fr),
                            );
                        }
                        Type::Unknown
                    },
                    Some(info) => {
                        if info.params.len() != args.len() {
                            self.add_error(SemanticError::ArityMismatch {
                                name: callee.clone(),
                                expected: info.params.len(),
                                got: args.len(),
                                span,
                            });
                        } else {
                            proof {
                                lemma_adds_none(old(self));
                            }
                        }
                        let ghost s1 = *self;
                        self.check_typed_args(args, &info.params, env);
                        proof {
                            lemma_adds_trans(
                                old(self),
                                &s1,
                                self,
                                arity_errs(callee@, info.params@.len(), args@.len(), span),
                                typed_errs(c, args@, models(info.params@), fr),
                            );
                        }
                        info.ret
                    },
                }
            },
            _ => Type::Unknown,
        }
    }

    /// A method call: the method must exist on the object's type, with
    /// arguments that meet its parameters.
    fn check_method_call(&mut self, es: &ExprS, env: &mut Env<Type>) -> (r: Type)
        requires
            es.node is MethodCall,
        ensures
            r.model() == ty_of(old(self).ctx(), *es, mframes(old(env).frames())),
            final(env).frames() == old(env).frames(),
            final(self).adds(old(self), errs_of(old(self).ctx(), *es, mframes(old(env).frames()))),
        decreases es, 0nat,
    {
        let ghost c = self.ctx();
        let ghost fr = mframes(env.frames());
        let span = es.span;
        match &es.node {
            Expr::MethodCall { object, method, args } => {
                let obj_ty = self.check_expr(object, env);
                let ghost s1 = *self;
                let ghost x1 = errs_of(c, **object, fr);
                let ghost ot = obj_ty.model();
                match self.lookup_method(&obj_ty, method.as_str()) {
                    None => {
                        if !matches!(obj_ty, Type::Unknown) {
                            self.add_error(SemanticError::UndefinedMethod {
                                ty_name: obj_ty.name(),
                                method: method.clone(),
                                span,
                            });
                        } else {
                            proof {
                                lemma_adds_none(&s1);
                            }
                        }
                        let ghost s2 = *self;
                        self.check_each(args, env);
                        proof {
                            lemma_adds_trans(old(self), &s1, &s2, x1, method_err(ot, method@, span));
                            lemma_adds_trans(
                                old(self),
                                &s2,
                                self,
                                x1 + method_err(ot, method@, span),
                                each_errs(c, args@, fr),
                            );
                            assert(x1 + method_err(ot, method@, span) + each_errs(c, args@, fr) =~= x1 + (method_err(
                                ot,
                                method@,
                                span,
                            ) + each_errs(c, args@, fr)));
                        }
                        Type::Unknown
                    },
                    Some(info) => {
                        let ghost sig = info.sig();
                        if info.params.len() != args.len() {
                            let mut name = obj_ty.name();
                            push_str(&mut name, ".");
                            push_str(&mut name, method.as_str());
                            self.add_error(SemanticError::ArityMismatch {
                                name,
                                expected: info.params.len(),
                                got: args.len(),
                                span,
                            });
                        } else {
                            proof {
                                lemma_adds_none(&s1);
                            }
                        }
                        let ghost s2 = *self;
                        let ghost ar = arity_errs(tv_name(ot) + "."@ + method@, sig.0.len(), args@.len(), span);
                        self.check_typed_args(args, &info.params, env);
                        proof {
                            lemma_adds_trans(old(self), &s1, &s2, x1, ar);
                            lemma_adds_trans(old(self), &s2, self, x1 + ar, typed_errs(c, args@, sig.0, fr));
                            assert(x1 + ar + typed_errs(c, args@, sig.0, fr) =~= x1 + (ar + typed_errs(
                                c,
                                args@,
                                sig.0,
                                fr,
                            )));
                        }
                        info.ret
                    },
                }
            },
            _ => Type::Unknown,
        }
    }

    /// Instantiation: the class must exist, and the arguments meet its
    /// (possibly inherited) constructor parameters.
    fn check_new(&mut self, es: &ExprS, env: &mut Env<Type>) -> (r: Type)
        requires
            es.node is New,
        ensures
            r.model() == ty_of(old(self).ctx(), *es, mframes(old(env).frames())),
            final(env).frames() == old(env).frames(),
            final(self).adds(old(self), errs_of(old(self).ctx(), *es, mframes(old(env).frames()))),
        decreases es, 0nat,
    {
        let ghost c = self.ctx();
        let ghost fr = mframes(env.frames());
        let span = es.span;
        match &es.node {
            Expr::New { ty_name, args } => {
                if !self.classes.contains_key(ty_name.as_str()) {
                    self.add_error(SemanticError::UndefinedClass { name: ty_name.clone(), span });
                    let ghost s1 = *self;
                    self.check_each(args, env);
                    proof {
                        lemma_adds_trans(
                            old(self),
                            &s1,
                            self,
                            seq![ErrV::UndefinedClass { name: ty_name@, span }],
                            each_errs(c, args@, fr),
                        );
                    }
                    return Type::Unknown;
                }
                let ctor_params = self.effective_ctor_params(ty_name.as_str());
                let ghost ps = models(ctor_params@);
                if ctor_params.len() != args.len() {
                    let mut name = "new ".to_owned();
                    push_str(&mut name, ty_name.as_str());
                    self.add_error(SemanticError::ArityMismatch {
                        name,
                        expected: ctor_params.len(),
                        got: args.len(),
                        span,
                    });
                } else {
                    proof {
                        lemma_adds_none(old(self));
                    }
                }
                let ghost s1 = *self;
                self.check_typed_args(args, &ctor_params, env);
                proof {
                    lemma_adds_trans(
                        old(self),
                        &s1,
                        self,
                        arity_errs("new "@ + ty_name@, ps.len(), args@.len(), span),
                        typed_errs(c, args@, ps, fr),
                    );
                }
                Type::Named(ty_name.clone())
            },
            _ => Type::Unknown,
        }
    }

    /// A `case`: each arm's body with its binding in a new scope; the join of
    /// the arms' types.
    #[verifier::loop_isolation(false)]
    fn check_case(&mut self, es: &ExprS, env: &mut Env<Type>) -> (r: Type)
        requires
            es.node is Case,
        ensures
            r.model() == ty_of(old(self).ctx(), *es, mframes(old(env).frames())),
            final(env).frames() == old(env).frames(),
            final(self).adds(old(self), errs_of(old(self).ctx(), *es, mframes(old(env).frames()))),
        decreases es, 0nat,
    {
        let ghost c = self.ctx();
        let ghost f0 = env.frames();
        let ghost fr = mframes(f0);
        match &es.node {
            Expr::Case { expr, arms } => {
                self.check_expr(expr, env);
                let ghost x0 = errs_of(c, **expr, fr);
                let mut result = Type::Unknown;
                proof {
                    assert(arms@.take(0) =~= Seq::<CaseArm>::empty());
                    assert(x0 + case_errs(c, Seq::<CaseArm>::empty(), fr) =~= x0);
                }
                let mut i: usize = 0;
                while i < arms.len()
                    invariant
                        i <= arms@.len(),
                        env.frames() == f0,
                        self.adds(old(self), x0 + case_errs(c, arms@.take(i as int), fr)),
                        c == old(self).ctx(),
                        result.model() == case_join(c, arms@.take(i as int), fr),
                    decreases arms.len() - i,
                {
                    let arm = &arms[i];
                    let ghost prev = arms@.take(i as int);
                    proof {
                        assert(decreases_to!(arms@ => arms@[i as int]));
                        assert(decreases_to!(*arms => arms@));
                        assert(decreases_to!(es.node => *arms));
                        assert(decreases_to!(*es => arms@[i as int].body));
                        let pre = arms@.take(i + 1);
                        assert(pre.subrange(0, pre.len() - 1) =~= prev);
                        assert(pre[pre.len() - 1] == arms@[i as int]);
                    }
                    let ghost s0 = *self;
                    let arm_ty = self.resolve_type(&arm.type_ann);
                    let mut reported = false;
                    if let TypeExpr::Named(n) = &arm.type_ann {
                        let known = match arm_ty {
                            Type::Number | Type::Boolean | Type::Str | Type::Object => true,
                            _ => false,
                        };
                        if !self.classes.contains_key(n.as_str()) && !known {
                            self.add_error(SemanticError::UndefinedType { name: n.clone(), span: arm.span });
                            reported = true;
                        }
                    }
                    if !reported {
                        proof {
                            lemma_adds_none(&s0);
                        }
                    }
                    let ghost s1 = *self;
                    proof {
                        lemma_adds_trans(old(self), &s0, &s1, x0 + case_errs(c, prev, fr), arm_type_errs(c, *arm));
                    }
                    env.push();
                    let ghost fp = env.frames();
                    env.define(arm.binding.as_str(), arm_ty);
                    proof {
                        lemma_mframes_push(f0, Seq::empty());
                        assert(mscope(Seq::<(String, Type)>::empty()) =~= Seq::empty());
                        lemma_mframes_define(fp, env.frames(), arm.binding@, arm_ty);
                        assert(mdefine(fr.push(Seq::empty()), arm.binding@, arm_ty.model()) =~= mbind(
                            fr,
                            arm.binding@,
                            arm_ty.model(),
                        ));
                    }
                    let body_ty = self.check_expr(&arm.body, env);
                    env.pop();
                    proof {
                        assert(f0.push(Seq::empty()).drop_last() =~= f0);
                        let a = case_errs(c, prev, fr);
                        let p = arm_type_errs(c, *arm);
                        let q = errs_of(c, arm.body, mbind(fr, arm.binding@, resolve(arm.type_ann)));
                        lemma_adds_trans(old(self), &s1, self, x0 + a + p, q);
                        assert(x0 + a + p + q =~= x0 + (a + p + q));
                    }
                    result = self.join(&result, &body_ty);
                    i += 1;
                }
                proof {
                    assert(arms@.take(i as int) =~= arms@);
                }
                result
            },
            _ => Type::Unknown,
        }
    }

    /// Checks `body` with `name` bound to `t` in a new scope.
    fn check_bound(&mut self, body: &ExprS, name: &String, t: Type, env: &mut Env<Type>) -> (r: Type)
        ensures
            r.model() == ty_of(old(self).ctx(), *body, mbind(mframes(old(env).frames()), name@, t.model())),
            final(env).frames() == old(env).frames(),
            final(self).adds(
                old(self),
                errs_of(old(self).ctx(), *body, mbind(mframes(old(env).frames()), name@, t.model())),
            ),
        decreases body, 2nat,
    {
        let ghost f0 = env.frames();
        let ghost fr = mframes(f0);
        env.push();
        let ghost fp = env.frames();
        let ghost tm = t.model();
        env.define(name.as_str(), t);
        proof {
            lemma_mframes_push(f0, Seq::empty());
            assert(mscope(Seq::<(String, Type)>::empty()) =~= Seq::empty());
            lemma_mframes_define(fp, env.frames(), name@, t);
            assert(mdefine(fr.push(Seq::empty()), name@, tm) =~= mbind(fr, name@, tm));
        }
        let r = self.check_expr(body, env);
        env.pop();
        proof {
            assert(f0.push(Seq::empty()).drop_last() =~= f0);
        }
        r
    }

    /// A `with`: the body with the binding in scope, joined with the fallback.
    fn check_with(&mut self, es: &ExprS, env: &mut Env<Type>) -> (r: Type)
        requires
            es.node is With,
        ensures
            r.model() == ty_of(old(self).ctx(), *es, mframes(old(env).frames())),
            final(env).frames() == old(env).frames(),
            final(self).adds(old(self), errs_of(old(self).ctx(), *es, mframes(old(env).frames()))),
        decreases es, 0nat,
    {
        let ghost c = self.ctx();
        let ghost fr = mframes(env.frames());
        match &es.node {
            Expr::With { expr, binding, body, fallback } => {
                let expr_ty = self.check_expr(expr, env);
                let ghost s1 = *self;
                let ghost x1 = errs_of(c, **expr, fr);
                let ghost x2 = errs_of(c, **body, mbind(fr, binding@, expr_ty.model()));
                let body_ty = self.check_bound(body, binding, expr_ty, env);
                let ghost s2 = *self;
                let fallback_ty = self.check_expr(fallback, env);
                proof {
                    lemma_adds_trans(old(self), &s1, &s2, x1, x2);
                    lemma_adds_trans(old(self), &s2, self, x1 + x2, errs_of(c, **fallback, fr));
                }
                self.join(&body_ty, &fallback_ty)
            },
            _ => Type::Unknown,
        }
    }

    /// A `for`: the body with the loop variable in scope, typed by the array's
    /// elements; Null.
    fn check_for(&mut self, es: &ExprS, env: &mut Env<Type>) -> (r: Type)
        requires
            es.node is For,
        ensures
            r.model() == ty_of(old(self).ctx(), *es, mframes(old(env).frames())),
            final(env).frames() == old(env).frames(),
            final(self).adds(old(self), errs_of(old(self).ctx(), *es, mframes(old(env).frames()))),
        decreases es, 0nat,
    {
        let ghost c = self.ctx();
        let ghost fr = mframes(env.frames());
        match &es.node {
            Expr::For { var, iter, body } => {
                let iter_ty = self.check_expr(iter, env);
                let elem_ty = match &iter_ty {
                    Type::Array(elem) => elem.copy(),
                    Type::Unknown => Type::Unknown,
                    _ => Type::Object,
                };
                let ghost s1 = *self;
                let ghost x2 = errs_of(c, **body, mbind(fr, var@, elem_ty.model()));
                self.check_bound(body, var, elem_ty, env);
                proof {
                    lemma_adds_trans(old(self), &s1, self, errs_of(c, **iter, fr), x2);
                }
                Type::Null
            },
            _ => Type::Unknown,
        }
    }

    /// An array comprehension: the body with the variable bound to the
    /// iterated array's element type; an array of the body's type.
    fn check_vec_comp(&mut self, es: &ExprS, env: &mut Env<Type>) -> (r: Type)
        requires
            es.node is VecComp,
        ensures
            r.model() == ty_of(old(self).ctx(), *es, mframes(old(env).frames())),
            final(env).frames() == old(env).frames(),
            final(self).adds(old(self), errs_of(old(self).ctx(), *es, mframes(old(env).frames()))),
        decreases es, 0nat,
    {
        let ghost c = self.ctx();
        let ghost fr = mframes(env.frames());
        match &es.node {
            Expr::VecComp { body, var, iter } => {
                let iter_ty = self.check_expr(iter, env);
                let elem_ty = match iter_ty {
                    Type::Array(inner) => *inner,
                    _ => Type::Unknown,
                };
                let ghost s1 = *self;
                let ghost x2 = errs_of(c, **body, mbind(fr, var@, elem_ty.model()));
                let body_ty = self.check_bound(body, var, elem_ty, env);
                proof {
                    lemma_adds_trans(old(self), &s1, self, errs_of(c, **iter, fr), x2);
                }
                Type::Array(Box::new(body_ty))
            },
            _ => Type::Unknown,
        }
    }

    /// An array literal: an array of the join of its elements' types, or of Objects.
    #[verifier::loop_isolation(false)]
    fn check_vec_lit(&mut self, es: &ExprS, env: &mut Env<Type>) -> (r: Type)
        requires
            es.node is VecLit,
        ensures
            r.model() == ty_of(old(self).ctx(), *es, mframes(old(env).frames())),
            final(env).frames() == old(env).frames(),
            final(self).adds(old(self), errs_of(old(self).ctx(), *es, mframes(old(env).frames()))),
        decreases es, 0nat,
    {
        let ghost c = self.ctx();
        let ghost fr = mframes(env.frames());
        match &es.node {
            Expr::VecLit { elements } => {
                let mut elem_ty = Type::Unknown;
                proof {
                    assert(elements@.take(0) =~= Seq::<ExprS>::empty());
                    lemma_adds_none(old(self));
                }
                let mut i: usize = 0;
                while i < elements.len()
                    invariant
                        i <= elements@.len(),
                        env.frames() == old(env).frames(),
                        self.adds(old(self), each_errs(c, elements@.take(i as int), fr)),
                        c == old(self).ctx(),
                        elem_ty.model() == vec_join(c, elements@.take(i as int), fr),
                    decreases elements.len() - i,
                {
                    proof {
                        assert(decreases_to!(elements@ => elements@[i as int]));
                        assert(decreases_to!(*elements => elements@));
                        assert(decreases_to!(es.node => *elements));
                        assert(decreases_to!(*es => elements@[i as int]));
                        let pre = elements@.take(i + 1);
                        assert(pre.subrange(0, pre.len() - 1) =~= elements@.take(i as int));
                        assert(pre[pre.len() - 1] == elements@[i as int]);
                    }
                    let ghost s0 = *self;
                    let t = self.check_expr(&elements[i], env);
                    proof {
                        lemma_adds_trans(
                            old(self),
                            &s0,
                            self,
                            each_errs(c, elements@.take(i as int), fr),
                            errs_of(c, elements@[i as int], fr),
                        );
                    }
                    elem_ty = self.join(&elem_ty, &t);
                    i += 1;
                }
                proof {
                    assert(elements@.take(i as int) =~= elements@);
                    let t = vec_join(c, elements@, fr);
                    assert(ty_of(c, *es, fr) == TypeV::Array(Box::new(if t is Unknown { TypeV::Object } else { t })));
                }
                let ghost t0 = elem_ty.model();
                let elem_ty = match elem_ty {
                    Type::Unknown => Type::Object,
                    t => t,
                };
                proof {
                    assert(elem_ty.model() == if t0 is Unknown { TypeV::Object } else { t0 });
                    assert(t0 == vec_join(c, elements@, fr));
                    assert(c == old(self).ctx());
                    assert(fr == mframes(old(env).frames()));
                }
                Type::Array(Box::new(elem_ty))
            },
            _ => Type::Unknown,
        }
    }

    /// A lambda: its body with the parameters in a new scope; an Object.
    #[verifier::loop_isolation(false)]
    fn check_lambda(&mut self, es: &ExprS, env: &mut Env<Type>) -> (r: Type)
        requires
            es.node is Lambda,
        ensures
            r.model() == ty_of(old(self).ctx(), *es, mframes(old(env).frames())),
            final(env).frames() == old(env).frames(),
            final(self).adds(old(self), errs_of(old(self).ctx(), *es, mframes(old(env).frames()))),
        decreases es, 0nat,
    {
        let ghost c = self.ctx();
        let ghost f0 = env.frames();
        let ghost fr = mframes(f0);
        match &es.node {
            Expr::Lambda { params, body } => {
                env.push();
                proof {
                    lemma_mframes_push(f0, Seq::empty());
                    assert(mscope(Seq::<(String, Type)>::empty()) =~= Seq::empty());
                    assert(param_scope(params@.take(0)) =~= Seq::empty());
                }
                let mut i: usize = 0;
                while i < params.len()
                    invariant
                        i <= params@.len(),
                        env.frames().len() == f0.len() + 1,
                        env.frames().drop_last() == f0,
                        mframes(env.frames()) == fr.push(param_scope(params@.take(i as int))),
                        *self == *old(self),
                    decreases params.len() - i,
                {
                    let ghost fb = env.frames();
                    let ty = self.resolve_opt(&params[i].type_ann, Type::Unknown);
                    env.define(params[i].name.as_str(), ty);
                    proof {
                        lemma_mframes_define(fb, env.frames(), params@[i as int].name@, ty);
                        assert(param_scope(params@.take(i + 1)) =~= param_scope(params@.take(i as int)).push(
                            (params@[i as int].name@, ty.model()),
                        ));
                        assert(fr.push(param_scope(params@.take(i as int))).last() == param_scope(params@.take(i as int)));
                        assert(mdefine(fr.push(param_scope(params@.take(i as int))), params@[i as int].name@, ty.model())
                            =~= fr.push(param_scope(params@.take(i + 1))));
                    }
                    i += 1;
                }
                proof {
                    assert(params@.take(i as int) =~= params@);
                }
                self.check_expr(body, env);
                env.pop();
                proof {
                    assert(env.frames() =~= f0);
                }
                Type::Object
            },
            _ => Type::Unknown,
        }
    }

    /// A macro's pattern match: every part is checked; an Object.
    #[verifier::loop_isolation(false)]
    fn check_macro_match(&mut self, es: &ExprS, env: &mut Env<Type>) -> (r: Type)
        requires
            es.node is MacroMatch,
        ensures
            r.model() == ty_of(old(self).ctx(), *es, mframes(old(env).frames())),
            final(env).frames() == old(env).frames(),
            final(self).adds(old(self), errs_of(old(self).ctx(), *es, mframes(old(env).frames()))),
        decreases es, 0nat,
    {
        let ghost c = self.ctx();
        let ghost fr = mframes(env.frames());
        match &es.node {
            Expr::MacroMatch { subject, cases, default_body } => {
                self.check_expr(subject, env);
                let ghost x0 = errs_of(c, **subject, fr);
                proof {
                    assert(cases@.take(0) =~= Seq::<(ExprS, ExprS)>::empty());
                    assert(x0 + pair_errs(c, Seq::<(ExprS, ExprS)>::empty(), fr) =~= x0);
                }
                let mut i: usize = 0;
                while i < cases.len()
                    invariant
                        i <= cases@.len(),
                        env.frames() == old(env).frames(),
                        self.adds(old(self), x0 + pair_errs(c, cases@.take(i as int), fr)),
                        c == old(self).ctx(),
                        fr == mframes(old(env).frames()),
                    decreases cases.len() - i,
                {
                    let ghost prev = cases@.take(i as int);
                    proof {
                        assert(decreases_to!(cases@ => cases@[i as int]));
                        assert(decreases_to!(*cases => cases@));
                        assert(decreases_to!(es.node => *cases));
                        assert(decreases_to!(*es => cases@[i as int].0));
                        assert(decreases_to!(*es => cases@[i as int].1));
                        let pre = cases@.take(i + 1);
                        assert(pre.subrange(0, pre.len() - 1) =~= prev);
                        assert(pre[pre.len() - 1] == cases@[i as int]);
                    }
                    let ghost s0 = *self;
                    self.check_expr(&cases[i].0, env);
                    let ghost s1 = *self;
                    self.check_expr(&cases[i].1, env);
                    proof {
                        let a = pair_errs(c, prev, fr);
                        let p = errs_of(c, cases@[i as int].0, fr);
                        let q = errs_of(c, cases@[i as int].1, fr);
                        lemma_adds_trans(old(self), &s0, &s1, x0 + a, p);
                        lemma_adds_trans(old(self), &s1, self, x0 + a + p, q);
                        assert(x0 + a + p + q =~= x0 + (a + p + q));
                    }
                    i += 1;
                }
                proof {
                    assert(cases@.take(i as int) =~= cases@);
                }
                let ghost s2 = *self;
                self.check_expr(default_body, env);
                proof {
                    lemma_adds_trans(old(self), &s2, self, x0 + pair_errs(c, cases@, fr), errs_of(c, **default_body, fr));
                }
                Type::Object
            },
            _ => Type::Unknown,
        }
    }

    /// The type a cast to `ty_name` gives: the class of that name, else the
    /// built-in type it names, else a named type.
    fn cast_type(&self, ty_name: &String) -> (r: Type)
        ensures
            r.model() == if self.classes.has(ty_name@) {
                TypeV::Named(ty_name@)
            } else if ty_name@ == "Null"@ {
                TypeV::Named(ty_name@)
            } else {
                named_type(ty_name@)
            },
    {
        proof {
            reveal_strlit("Null");
            reveal_strlit("Number");
            reveal_strlit("Boolean");
            reveal_strlit("String");
            reveal_strlit("Object");
            assert("Null"@[2] != "Number"@[2]);
            assert("Null"@.len() != "Boolean"@.len());
            assert("Null"@.len() != "String"@.len());
            assert("Null"@.len() != "Object"@.len());
        }
        if self.classes.contains_key(ty_name.as_str()) {
            Type::Named(ty_name.clone())
        } else if str_is(ty_name, "Number") {
            Type::Number
        } else if str_is(ty_name, "Boolean") {
            Type::Boolean
        } else if str_is(ty_name, "String") {
            Type::Str
        } else if str_is(ty_name, "Object") {
            Type::Object
        } else {
            Type::Named(ty_name.clone())
        }
    }

    /// A unary operator: `-` on Numbers, `!` on Booleans.
    fn check_unary(&mut self, es: &ExprS, env: &mut Env<Type>) -> (r: Type)
        requires
            es.node is Unary,
        ensures
            r.model() == ty_of(old(self).ctx(), *es, mframes(old(env).frames())),
            final(env).frames() == old(env).frames(),
            final(self).adds(old(self), errs_of(old(self).ctx(), *es, mframes(old(env).frames()))),
        decreases es, 0nat,
    {
        let ghost c = self.ctx();
        let ghost f0 = env.frames();
        let ghost fr = mframes(env.frames());
        let span = es.span;
        match &es.node {
            Expr::Unary { op, operand } => {
                let t = self.check_expr(operand, env);
                let ghost s1 = *self;
                let ghost tm = t.model();
                match op {
                    UnaryOp::Neg => {
                        if !self.is_subtype(&t, &Type::Number) && !matches!(t, Type::Unknown) {
                            self.add_error(SemanticError::NonNumericOperand { op: "-".to_owned(), got: t, span });
                        } else {
                            proof {
                                lemma_adds_none(&s1);
                            }
                        }
                        proof {
                            lemma_adds_trans(old(self), &s1, self, errs_of(c, **operand, fr), unary_err(c, *op, tm, span));
                        }
                        Type::Number
                    },
                    UnaryOp::Not => {
                        if !self.is_subtype(&t, &Type::Boolean) && !matches!(t, Type::Unknown) {
                            self.add_error(SemanticError::NonBooleanOperand { op: "!".to_owned(), got: t, span });
                        } else {
                            proof {
                                lemma_adds_none(&s1);
                            }
                        }
                        proof {
                            lemma_adds_trans(old(self), &s1, self, errs_of(c, **operand, fr), unary_err(c, *op, tm, span));
                        }
                        Type::Boolean
                    },
                }
            }
            _ => Type::Unknown,
        }
    }

    /// A binary operator: both operands, then what the operator asks of them.
    fn check_binary_expr(&mut self, es: &ExprS, env: &mut Env<Type>) -> (r: Type)
        requires
            es.node is Binary,
        ensures
            r.model() == ty_of(old(self).ctx(), *es, mframes(old(env).frames())),
            final(env).frames() == old(env).frames(),
            final(self).adds(old(self), errs_of(old(self).ctx(), *es, mframes(old(env).frames()))),
        decreases es, 0nat,
    {
        let ghost c = self.ctx();
        let ghost f0 = env.frames();
        let ghost fr = mframes(env.frames());
        let span = es.span;
        match &es.node {
            Expr::Binary { op, left, right } => {
                let lt = self.check_expr(left, env);
                let ghost s1 = *self;
                let rt = self.check_expr(right, env);
                let ghost s2 = *self;
                let r = self.check_binary(op, &lt, &rt, span);
                proof {
                    let x1 = errs_of(c, **left, fr);
                    let x2 = errs_of(c, **right, fr);
                    lemma_adds_trans(old(self), &s1, &s2, x1, x2);
                    assert(self.adds(&s2, binary_errors_in(c.cls, c.ps, *op, lt.model(), rt.model(), span)));
                    lemma_adds_trans(
                        old(self),
                        &s2,
                        self,
                        x1 + x2,
                        binary_errors_in(c.cls, c.ps, *op, lt.model(), rt.model(), span),
                    );
                }
                r
            }
            _ => Type::Unknown,
        }
    }

    /// A `while`: a Boolean condition and the body; Null.
    fn check_while(&mut self, es: &ExprS, env: &mut Env<Type>) -> (r: Type)
        requires
            es.node is While,
        ensures
            r.model() == ty_of(old(self).ctx(), *es, mframes(old(env).frames())),
            final(env).frames() == old(env).frames(),
            final(self).adds(old(self), errs_of(old(self).ctx(), *es, mframes(old(env).frames()))),
        decreases es, 0nat,
    {
        let ghost c = self.ctx();
        let ghost f0 = env.frames();
        let ghost fr = mframes(env.frames());
        let span = es.span;
        match &es.node {
            Expr::While { cond, body } => {
                self.check_condition(cond, env, span);
                let ghost s1 = *self;
                self.check_expr(body, env);
                proof {
                    lemma_adds_trans(old(self), &s1, self, cond_errs(c, **cond, fr, span), errs_of(c, **body, fr));
                }
                Type::Null
            }
            _ => Type::Unknown,
        }
    }

    /// A field access: the attribute must exist on the object's type.
    fn check_field(&mut self, es: &ExprS, env: &mut Env<Type>) -> (r: Type)
        requires
            es.node is FieldAccess,
        ensures
            r.model() == ty_of(old(self).ctx(), *es, mframes(old(env).frames())),
            final(env).frames() == old(env).frames(),
            final(self).adds(old(self), errs_of(old(self).ctx(), *es, mframes(old(env).frames()))),
        decreases es, 0nat,
    {
        let ghost c = self.ctx();
        let ghost f0 = env.frames();
        let ghost fr = mframes(env.frames());
        let span = es.span;
        match &es.node {
            Expr::FieldAccess { object, field } => {
                let obj_ty = self.check_expr(object, env);
                let ghost s1 = *self;
                let ghost ot = obj_ty.model();
                let r = match self.lookup_attribute(&obj_ty, field.as_str()) {
                    Some(t) => {
                        proof {
                            lemma_adds_none(&s1);
                        }
                        t
                    },
                    None => {
                        if !matches!(obj_ty, Type::Unknown) {
                            self.add_error(SemanticError::UndefinedField {
                                ty_name: obj_ty.name(),
                                field: field.clone(),
                                span,
                            });
                        } else {
                            proof {
                                lemma_adds_none(&s1);
                            }
                        }
                        Type::Unknown
                    },
                };
                proof {
                    lemma_adds_trans(old(self), &s1, self, errs_of(c, **object, fr), field_err(c, ot, field@, span));
                }
                r
            }
            _ => Type::Unknown,
        }
    }

    /// Indexing: a Number index into an array; the element type.
    #[verifier::rlimit(40)]
    #[verifier::spinoff_prover]
    fn check_index(&mut self, es: &ExprS, env: &mut Env<Type>) -> (r: Type)
        requires
            es.node is Index,
        ensures
            r.model() == ty_of(old(self).ctx(), *es, mframes(old(env).frames())),
            final(env).frames() == old(env).frames(),
            final(self).adds(old(self), errs_of(old(self).ctx(), *es, mframes(old(env).frames()))),
        decreases es, 0nat,
    {
        let ghost c = self.ctx();
        let ghost f0 = env.frames();
        let ghost fr = mframes(env.frames());
        let span = es.span;
        match &es.node {
            Expr::Index { array, index } => {
                let arr_ty = self.check_expr(array, env);
                let ghost s1 = *self;
                let idx_ty = self.check_expr(index, env);
                let ghost s2 = *self;
                self.expect_type(&idx_ty, &Type::Number, index.span);
                let ghost s3 = *self;
                let ghost at = arr_ty.model();
                let r = match arr_ty {
                    Type::Array(elem) => {
                        proof {
                            lemma_adds_none(&s3);
                            assert(index_err(at, array.span) == Seq::<ErrV>::empty());
                        }
                        *elem
                    },
                    Type::Unknown => {
                        proof {
                            lemma_adds_none(&s3);
                            assert(index_err(at, array.span) == Seq::<ErrV>::empty());
                        }
                        Type::Unknown
                    },
                    other => {
                        let ghost om = other.model();
                        let e = SemanticError::TypeMismatch {
                            expected: Type::Array(Box::new(Type::Unknown)),
                            got: other,
                            span: array.span,
                        };
                        proof {
                            assert(Type::Unknown.model() == TypeV::Unknown);
                            assert(om == at);
                            assert(!(at is Array) && !(at is Unknown));
                            assert(e@ == ErrV::TypeMismatch {
                                expected: TypeV::Array(Box::new(TypeV::Unknown)),
                                got: at,
                                span: array.span,
                            });
                            assert(index_err(at, array.span) == seq![e@]);
                        }
                        self.add_error(e);
                        Type::Unknown
                    },
                };
                proof {
                    let x1 = errs_of(c, **array, fr);
                    let x2 = errs_of(c, **index, fr);
                    let x3 = expect_errs(c, idx_ty.model(), TypeV::Number, index.span);
                    lemma_adds_trans(old(self), &s1, &s2, x1, x2);
                    lemma_adds_trans(old(self), &s2, &s3, x1 + x2, x3);
                    lemma_adds_trans(old(self), &s3, self, x1 + x2 + x3, index_err(at, array.span));
                }
                r
            }
            _ => Type::Unknown,
        }
    }

    /// A sized array: a Number size and an optional initializer.
    fn check_new_array(&mut self, es: &ExprS, env: &mut Env<Type>) -> (r: Type)
        requires
            es.node is NewArray,
        ensures
            r.model() == ty_of(old(self).ctx(), *es, mframes(old(env).frames())),
            final(env).frames() == old(env).frames(),
            final(self).adds(old(self), errs_of(old(self).ctx(), *es, mframes(old(env).frames()))),
        decreases es, 0nat,
    {
        let ghost c = self.ctx();
        let ghost f0 = env.frames();
        let ghost fr = mframes(env.frames());
        let span = es.span;
        match &es.node {
            Expr::NewArray { ty_name, size, init } => {
                let size_ty = self.check_expr(size, env);
                let ghost s1 = *self;
                self.expect_type(&size_ty, &Type::Number, size.span);
                let ghost s2 = *self;
                let ghost x2 = errs_of(c, **size, fr) + expect_errs(c, size_ty.model(), TypeV::Number, size.span);
                proof {
                    lemma_adds_trans(
                        old(self),
                        &s1,
                        &s2,
                        errs_of(c, **size, fr),
                        expect_errs(c, size_ty.model(), TypeV::Number, size.span),
                    );
                }
                if let Some(init_block) = init {
                    self.check_expr(init_block, env);
                    proof {
                        lemma_adds_trans(old(self), &s2, self, x2, errs_of(c, **init_block, fr));
                        assert(opt_errs(c, *init, fr) == errs_of(c, **init_block, fr));
                    }
                } else {
                    proof {
                        lemma_adds_none(&s2);
                        lemma_adds_trans(old(self), &s2, self, x2, Seq::empty());
                        assert(opt_errs(c, *init, fr) == Seq::<ErrV>::empty());
                    }
                }
                proof {
                    assert(errs_of(c, *es, fr) == x2 + opt_errs(c, *init, fr));
                }
                let elem_ty = self.resolve_type(&TypeExpr::Named(ty_name.clone()));
                Type::Array(Box::new(elem_ty))
            }
            _ => Type::Unknown,
        }
    }

    /// Infers the type of an expression in the given scopes and reports the
    /// errors in it; the scopes are left as they were.
    #[verifier::rlimit(60)]
    #[verifier::spinoff_prover]
    pub fn check_expr(&mut self, es: &ExprS, env: &mut Env<Type>) -> (r: Type)
        ensures
            r.model() == ty_of(old(self).ctx(), *es, mframes(old(env).frames())),
            final(env).frames() == old(env).frames(),
            final(self).only_errors(old(self)),
            final(self).adds(old(self), errs_of(old(self).ctx(), *es, mframes(old(env).frames()))),
        decreases es, 1nat,
    {
        let ghost c = self.ctx();
        let ghost f0 = env.frames();
        let ghost fr = mframes(env.frames());
        let span = es.span;
        match &es.node {
            Expr::Number(_) => {
                proof {
                    lemma_adds_none(old(self));
                }
                Type::Number
            },
            Expr::Bool(_) => {
                proof {
                    lemma_adds_none(old(self));
                }
                Type::Boolean
            },
            Expr::Str(_) => {
                proof {
                    lemma_adds_none(old(self));
                }
                Type::Str
            },
            Expr::Null => {
                proof {
                    lemma_adds_none(old(self));
                }
                Type::Null
            },
            Expr::Self_ => match &self.current_class {
                Some(name) => {
                    proof {
                        lemma_adds_none(old(self));
                    }
                    Type::Named(name.clone())
                },
                None => {
                    self.add_error(SemanticError::UndefinedVariable { name: "self".to_owned(), span });
                    Type::Unknown
                },
            },
            Expr::Var(name) => {
                proof {
                    lemma_menv_get(f0, name@);
                }
                match env.lookup(name.as_str()) {
                    Some(t) => {
                        proof {
                            lemma_adds_none(old(self));
                        }
                        t.copy()
                    },
                    None => {
                        self.add_error(SemanticError::UndefinedVariable { name: name.clone(), span });
                        Type::Unknown
                    },
                }
            },
            Expr::Unary { .. } => self.check_unary(es, env),
            Expr::Binary { .. } => self.check_binary_expr(es, env),
            Expr::Assign { .. } => self.check_assign(es, env),
            Expr::Let { .. } => self.check_let(es, env),
            Expr::If { .. } => self.check_if(es, env),
            Expr::Block(_) => self.check_block(es, env),
            Expr::While { .. } => self.check_while(es, env),
            Expr::Call { .. } => self.check_call(es, env),
            Expr::MethodCall { .. } => self.check_method_call(es, env),
            Expr::FieldAccess { .. } => self.check_field(es, env),
            Expr::Index { .. } => self.check_index(es, env),
            Expr::New { .. } => self.check_new(es, env),
            Expr::NewArray { .. } => self.check_new_array(es, env),
            Expr::Case { .. } => self.check_case(es, env),
            Expr::With { .. } => self.check_with(es, env),
            Expr::For { .. } => self.check_for(es, env),
            Expr::IsInstance { expr, .. } => {
                self.check_expr(expr, env);
                Type::Boolean
            },
            Expr::Cast { expr, ty_name } => {
                self.check_expr(expr, env);
                self.cast_type(ty_name)
            },
            Expr::VecLit { .. } => self.check_vec_lit(es, env),
            Expr::VecComp { .. } => self.check_vec_comp(es, env),
            Expr::Base { args } => {
                self.check_each(args, env);
                Type::Object
            },
            Expr::Lambda { .. } => self.check_lambda(es, env),
            Expr::MacroArgRef(_) | Expr::MacroArgName(_) => {
                proof {
                    lemma_adds_none(old(self));
                }
                Type::Object
            },
            Expr::MacroMatch { .. } => self.check_macro_match(es, env),
        }
    }
}


/// The scopes a function body is checked in: one scope with its parameters.
pub open spec fn param_frames(ps: Seq<Param>) -> Seq<Seq<(Seq<char>, TypeV)>> {
    seq![ps.map_values(|p: Param| (p.name@, ann(p.type_ann, TypeV::Unknown)))]
}

/// The scopes a macro body is checked in: one scope with its parameters,
/// Objects unless annotated.
pub open spec fn macro_frames(ps: Seq<MacroParam>) -> Seq<Seq<(Seq<char>, TypeV)>> {
    seq![ps.map_values(|p: MacroParam| (p.name@, ann(p.type_ann, TypeV::Object)))]
}

/// An error when a body of type `t` does not meet the declared return type.
pub open spec fn ret_err(c: Ctx, ret: Option<TypeExpr>, t: TypeV, span: Span) -> Seq<ErrV> {
    match ret {
        Some(te) => if !sub_in(c, t, resolve(te)) {
            seq![ErrV::TypeMismatch { expected: resolve(te), got: t, span }]
        } else {
            Seq::empty()
        },
        None => Seq::empty(),
    }
}

/// The errors of a function declaration: its body's, checked with its
/// parameters in scope, and its return type's.
pub open spec fn fn_errs(c: Ctx, func: FunctionDecl) -> Seq<ErrV> {
    errs_of(c, func.body, param_frames(func.params@)) + ret_err(
        c,
        func.return_type,
        ty_of(c, func.body, param_frames(func.params@)),
        func.body.span,
    )
}

/// The errors of the function declarations `fs`, in order.
pub open spec fn fns_errs(c: Ctx, fs: Seq<FunctionDecl>) -> Seq<ErrV>
    decreases fs.len(),
{
    if fs.len() == 0 {
        Seq::empty()
    } else {
        fns_errs(c, fs.drop_last()) + fn_errs(c, fs.last())
    }
}

/// Scopes `f` with the constants `PI` and `E` added to the innermost.
pub open spec fn with_constants(f: Seq<Seq<(Seq<char>, TypeV)>>) -> Seq<Seq<(Seq<char>, TypeV)>> {
    mdefine(mdefine(f, "PI"@, TypeV::Number), "E"@, TypeV::Number)
}

/// The errors of the entry expression, if any, checked in scopes `f`.
pub open spec fn entry_errs(c: Ctx, entry: Option<ExprS>, f: Seq<Seq<(Seq<char>, TypeV)>>) -> Seq<ErrV> {
    match entry {
        Some(e) => errs_of(c, e, f),
        None => Seq::empty(),
    }
}

/// The scope of a class member: `self`, then the constructor's parameters.
pub open spec fn ctor_scope(class: ClassDecl) -> Seq<(Seq<char>, TypeV)> {
    seq![("self"@, TypeV::Named(class.name@))] + class.ctor_params@.map_values(
        |p: Param| (p.name@, ann(p.type_ann, TypeV::Unknown)),
    )
}

/// The scopes a class member is checked in: a method's own parameters follow
/// the constructor's.
pub open spec fn member_frames(class: ClassDecl, m: ClassMember) -> Seq<Seq<(Seq<char>, TypeV)>> {
    match m {
        ClassMember::Attribute { .. } => seq![ctor_scope(class)],
        ClassMember::Method { params, .. } => seq![
            ctor_scope(class) + params@.map_values(|p: Param| (p.name@, ann(p.type_ann, TypeV::Unknown))),
        ],
    }
}

/// The errors of a class member: an attribute's initializer's; a method's
/// body's and return type's.
pub open spec fn member_errs(c: Ctx, class: ClassDecl, m: ClassMember) -> Seq<ErrV> {
    match m {
        ClassMember::Attribute { init, .. } => errs_of(c, init, member_frames(class, m)),
        ClassMember::Method { return_type, body, .. } => errs_of(c, body, member_frames(class, m)) + ret_err(
            c,
            return_type,
            ty_of(c, body, member_frames(class, m)),
            body.span,
        ),
    }
}

/// `c` with class table `t`.
pub open spec fn with_cls(c: Ctx, t: Table<ClassInfo>) -> Ctx {
    Ctx { cls: t, ps: c.ps, fs: c.fs, cur: c.cur }
}

/// `t1` is `t0` with attribute `a` of class `cn` given type `ty`, when the
/// class is known; everything else as it was.
pub open spec fn attr_set(t0: Table<ClassInfo>, t1: Table<ClassInfo>, cn: Seq<char>, a: Seq<char>, ty: TypeV) -> bool {
    &&& t1.entries().len() == t0.entries().len()
    &&& forall|k: Seq<char>| #[trigger] t1.has(k) == t0.has(k)
    &&& forall|k: Seq<char>| k != cn ==> #[trigger] t1.spec_get(k) == t0.spec_get(k)
    &&& !t0.has(cn) ==> t1.spec_get(cn) == t0.spec_get(cn)
    &&& t0.has(cn) ==> {
        let x = t1.spec_get(cn)->Some_0;
        let y = t0.spec_get(cn)->Some_0;
        &&& x.base == y.base
        &&& x.ctor_params == y.ctor_params
        &&& x.methods == y.methods
        &&& x.span == y.span
        &&& x.attributes.spec_get(a) is Some
        &&& x.attributes.spec_get(a)->Some_0.model() == ty
        &&& forall|q: Seq<char>| q != a ==> #[trigger] x.attributes.spec_get(q) == y.attributes.spec_get(q)
    }
}

/// How checking member `m` of `class` changes the class table from `t0` to
/// `t1`: an attribute takes its initializer's type; a method changes nothing.
pub open spec fn member_step(c: Ctx, class: ClassDecl, m: ClassMember, t0: Table<ClassInfo>, t1: Table<ClassInfo>) -> bool {
    match m {
        ClassMember::Attribute { name, init, .. } => attr_set(
            t0,
            t1,
            class.name@,
            name@,
            ty_of(with_cls(c, t0), init, member_frames(class, m)),
        ),
        ClassMember::Method { .. } => t1 == t0,
    }
}

/// `tabs` are the class tables before each member of `class` and after the last.
pub open spec fn class_chain(c: Ctx, class: ClassDecl, tabs: Seq<Table<ClassInfo>>) -> bool {
    &&& tabs.len() == class.members@.len() + 1
    &&& forall|i: int|
        0 <= i < class.members@.len() ==> #[trigger] member_step(c, class, class.members@[i], tabs[i], tabs[i + 1])
}

/// The errors of members `ms`, each checked against its table in `tabs`.
pub open spec fn members_errs(c: Ctx, class: ClassDecl, ms: Seq<ClassMember>, tabs: Seq<Table<ClassInfo>>) -> Seq<ErrV>
    decreases ms.len(),
{
    if ms.len() == 0 {
        Seq::empty()
    } else {
        members_errs(c, class, ms.drop_last(), tabs) + member_errs(with_cls(c, tabs[ms.len() - 1]), class, ms.last())
    }
}

/// An error when a class's base is not a known class.
pub open spec fn base_err(cls: Table<ClassInfo>, class: ClassDecl) -> Seq<ErrV> {
    match class.base {
        Some(b) => if !cls.has(b@) {
            seq![ErrV::UndefinedClass { name: b@, span: class.span }]
        } else {
            Seq::empty()
        },
        None => Seq::empty(),
    }
}

/// The context the members of class `cl` are checked in, from table `t`.
pub open spec fn member_ctx(ps: Table<ProtocolInfo>, fs: Table<FuncInfo>, cl: ClassDecl, t: Table<ClassInfo>) -> Ctx {
    Ctx { cls: t, ps, fs, cur: Some(cl.name@) }
}

/// The class table after classes whose chains are `chains`, from `t0`.
pub open spec fn end_table(t0: Table<ClassInfo>, chains: Seq<Seq<Table<ClassInfo>>>) -> Table<ClassInfo> {
    if chains.len() == 0 {
        t0
    } else {
        chains.last().last()
    }
}

/// `chains` hold, for each class of `cs` in turn, its chain of tables, each
/// starting where the one before ended and the first at `t0`.
pub open spec fn classes_ok(
    ps: Table<ProtocolInfo>,
    fs: Table<FuncInfo>,
    cs: Seq<ClassDecl>,
    chains: Seq<Seq<Table<ClassInfo>>>,
    t0: Table<ClassInfo>,
) -> bool {
    &&& chains.len() == cs.len()
    &&& forall|i: int|
        0 <= i < cs.len() ==> #[trigger] class_chain(member_ctx(ps, fs, cs[i], chains[i][0]), cs[i], chains[i])
    &&& forall|i: int| 0 <= i < cs.len() ==> #[trigger] chains[i][0] == end_table(t0, chains.take(i))
}

/// The errors of classes `cs` checked along `chains`.
pub open spec fn classes_errs(
    ps: Table<ProtocolInfo>,
    fs: Table<FuncInfo>,
    cs: Seq<ClassDecl>,
    chains: Seq<Seq<Table<ClassInfo>>>,
) -> Seq<ErrV>
    decreases cs.len(),
{
    if cs.len() == 0 {
        Seq::empty()
    } else {
        let k = cs.len() - 1;
        classes_errs(ps, fs, cs.drop_last(), chains) + base_err(chains[k][0], cs[k]) + members_errs(
            member_ctx(ps, fs, cs[k], chains[k][0]),
            cs[k],
            cs[k].members@,
            chains[k],
        )
    }
}

/// The class errors only read the chains of their own classes.
pub proof fn lemma_classes_errs_prefix(
    ps: Table<ProtocolInfo>,
    fs: Table<FuncInfo>,
    cs: Seq<ClassDecl>,
    a: Seq<Seq<Table<ClassInfo>>>,
    b: Seq<Seq<Table<ClassInfo>>>,
)
    requires
        cs.len() <= a.len(),
        cs.len() <= b.len(),
        forall|k: int| 0 <= k < cs.len() ==> a[k] == b[k],
    ensures
        classes_errs(ps, fs, cs, a) == classes_errs(ps, fs, cs, b),
    decreases cs.len(),
{
    if cs.len() > 0 {
        lemma_classes_errs_prefix(ps, fs, cs.drop_last(), a, b);
        assert(a[cs.len() - 1] == b[cs.len() - 1]);
    }
}

/// The member errors only read the tables of their own members.
pub proof fn lemma_members_errs_prefix(
    c: Ctx,
    class: ClassDecl,
    ms: Seq<ClassMember>,
    t1: Seq<Table<ClassInfo>>,
    t2: Seq<Table<ClassInfo>>,
)
    requires
        ms.len() <= t1.len(),
        ms.len() <= t2.len(),
        forall|k: int| 0 <= k < ms.len() ==> t1[k] == t2[k],
    ensures
        members_errs(c, class, ms, t1) == members_errs(c, class, ms, t2),
    decreases ms.len(),
{
    if ms.len() > 0 {
        lemma_members_errs_prefix(c, class, ms.drop_last(), t1, t2);
        assert(t1[ms.len() - 1] == t2[ms.len() - 1]);
    }
}

impl Checker {
    /// Binds each parameter in the innermost scope, to its annotated type or
    /// `default`.
    fn bind_params(&mut self, ps: &Vec<Param>, env: &mut Env<Type>, default: &Type)
        requires
            old(env).frames().len() > 0,
        ensures
            *final(self) == *old(self),
            final(env).frames().len() == old(env).frames().len(),
            final(env).frames().drop_last() == old(env).frames().drop_last(),
            mframes(final(env).frames()).last() == mframes(old(env).frames()).last() + ps@.map_values(
                |p: Param| (p.name@, ann(p.type_ann, default.model())),
            ),
    {
        let ghost f0 = env.frames();
        let mut i: usize = 0;
        while i < ps.len()
            invariant
                i <= ps@.len(),
                *self == *old(self),
                f0 == old(env).frames(),
                f0.len() > 0,
                env.frames().len() == f0.len(),
                env.frames().drop_last() == f0.drop_last(),
                mframes(env.frames()).last() == mframes(f0).last() + ps@.take(i as int).map_values(
                    |p: Param| (p.name@, ann(p.type_ann, default.model())),
                ),
            decreases ps.len() - i,
        {
            let ty = self.resolve_opt(&ps[i].type_ann, default.copy());
            let ghost fb = env.frames();
            env.define(ps[i].name.as_str(), ty);
            proof {
                lemma_mframes_define(fb, env.frames(), ps@[i as int].name@, ty);
                let g = |p: Param| (p.name@, ann(p.type_ann, default.model()));
                assert(ps@.take(i + 1).map_values(g) =~= ps@.take(i as int).map_values(g).push(g(ps@[i as int])));
                assert(mframes(env.frames()).last() =~= mframes(fb).last().push(g(ps@[i as int])));
            }
            i += 1;
        }
        proof {
            assert(ps@.take(i as int) =~= ps@);
        }
    }

    /// Checks a function's body with its parameters in scope, against its
    /// declared return type.
    fn check_function_decl(&mut self, func: &FunctionDecl, _outer: &mut Env<Type>)
        ensures
            final(self).adds(old(self), fn_errs(old(self).ctx(), *func)),
            *final(_outer) == *old(_outer),
    {
        let ghost c = self.ctx();
        let mut env: Env<Type> = Env::new();
        self.bind_params(&func.params, &mut env, &Type::Unknown);
        proof {
            let g = |p: Param| (p.name@, ann(p.type_ann, TypeV::Unknown));
            assert(mframes(env.frames()) =~= param_frames(func.params@)) by {
                assert(mframes(seq![Seq::<(String, Type)>::empty()]).last() =~= Seq::empty());
                assert(env.frames().len() == 1);
                assert(Seq::<(Seq<char>, TypeV)>::empty() + func.params@.map_values(g) =~= func.params@.map_values(g));
            }
        }
        let body_ty = self.check_expr(&func.body, &mut env);
        let ghost s1 = *self;
        let ghost bt = body_ty.model();
        if let Some(ret_te) = &func.return_type {
            let ret_ty = self.resolve_type(ret_te);
            if !self.is_subtype(&body_ty, &ret_ty) {
                self.add_error(SemanticError::TypeMismatch { expected: ret_ty, got: body_ty, span: func.body.span });
            } else {
                proof {
                    lemma_adds_none(&s1);
                }
            }
        } else {
            proof {
                lemma_adds_none(&s1);
            }
        }
        proof {
            lemma_adds_trans(
                old(self),
                &s1,
                self,
                errs_of(c, func.body, param_frames(func.params@)),
                ret_err(c, func.return_type, bt, func.body.span),
            );
        }
    }

    /// Checks a macro's body with its parameters in scope, Objects unless annotated.
    pub fn check_macro_decl(&mut self, mac: &MacroDecl)
        ensures
            final(self).adds(old(self), errs_of(old(self).ctx(), mac.body, macro_frames(mac.params@))),
    {
        let mut env: Env<Type> = Env::new();
        let ghost g = |p: MacroParam| (p.name@, ann(p.type_ann, TypeV::Object));
        proof {
            assert(env.frames().len() == 1);
            assert(mscope(env.frames()[0]) =~= Seq::<(Seq<char>, TypeV)>::empty());
            assert(mac.params@.take(0).map_values(g) =~= Seq::<(Seq<char>, TypeV)>::empty());
            assert(mframes(env.frames()) =~= seq![mac.params@.take(0).map_values(g)]);
        }
        let mut i: usize = 0;
        while i < mac.params.len()
            invariant
                i <= mac.params@.len(),
                *self == *old(self),
                env.frames().len() == 1,
                g == (|p: MacroParam| (p.name@, ann(p.type_ann, TypeV::Object))),
                mframes(env.frames()) == seq![mac.params@.take(i as int).map_values(g)],
            decreases mac.params.len() - i,
        {
            let ghost fb = env.frames();
            let ty = self.resolve_opt(&mac.params[i].type_ann, Type::Object);
            env.define(mac.params[i].name.as_str(), ty);
            proof {
                lemma_mframes_define(fb, env.frames(), mac.params@[i as int].name@, ty);
                assert(mac.params@.take(i + 1).map_values(g) =~= mac.params@.take(i as int).map_values(g).push(
                    g(mac.params@[i as int]),
                ));
                assert(mframes(env.frames()) =~= seq![mac.params@.take(i + 1).map_values(g)]);
            }
            i += 1;
        }
        proof {
            assert(mac.params@.take(i as int) =~= mac.params@);
        }
        self.check_expr(&mac.body, &mut env);
    }

    /// The context members of `class` are checked in, by a checker whose tables
    /// are `ck`'s.
    pub open spec fn class_ctx(ck: Checker, class: ClassDecl) -> Ctx {
        Ctx { cls: ck.classes, ps: ck.protocols, fs: ck.functions, cur: Some(class.name@) }
    }

    /// Sets up the scope a member of `class` is checked in: `self` and the
    /// constructor's parameters.
    fn member_env(&mut self, class: &ClassDecl) -> (env: Env<Type>)
        ensures
            *final(self) == *old(self),
            env.frames().len() == 1,
            mframes(env.frames()) == seq![ctor_scope(*class)],
    {
        let mut env: Env<Type> = Env::new();
        let ghost f0 = env.frames();
        let self_ty = Type::Named(class.name.clone());
        let ghost st = self_ty;
        env.define("self", self_ty);
        let ghost f1 = env.frames();
        proof {
            lemma_mframes_define(f0, f1, "self"@, st);
            assert(mscope(f0[0]) =~= Seq::<(Seq<char>, TypeV)>::empty());
            assert(mframes(f1) =~= seq![seq![("self"@, TypeV::Named(class.name@))]]);
        }
        self.bind_params(&class.ctor_params, &mut env, &Type::Unknown);
        proof {
            assert(mframes(env.frames()).last() == seq![("self"@, TypeV::Named(class.name@))] + class.ctor_params@.map_values(
                |p: Param| (p.name@, ann(p.type_ann, TypeV::Unknown)),
            ));
            assert(mframes(env.frames()) =~= seq![ctor_scope(*class)]);
        }
        env
    }

    /// Gives attribute `a` of class `cn` type `t`, when the class is known.
    fn set_attribute(&mut self, cn: &String, a: &String, t: Type, span: Span)
        ensures
            attr_set(old(self).classes, final(self).classes, cn@, a@, t.model()),
            final(self).errors == old(self).errors,
            final(self).protocols == old(self).protocols,
            final(self).functions == old(self).functions,
            final(self).builtin_names == old(self).builtin_names,
            final(self).current_class == old(self).current_class,
    {
        let ghost tm = t.model();
        let placeholder = ClassInfo {
            base: None,
            ctor_params: Vec::new(),
            attributes: Table::new(),
            methods: Table::new(),
            span,
        };
        let ghost cb = self.classes;
        match self.classes.replace(cn.as_str(), placeholder) {
            Some(info) => {
                let ghost gi = info;
                let ghost mid = self.classes;
                let ClassInfo { base, ctor_params, attributes, methods, span } = info;
                let mut attributes = attributes;
                let ghost ab = attributes;
                attributes.insert(a.clone(), t);
                let updated = ClassInfo { base, ctor_params, attributes, methods, span };
                let ghost gu = updated;
                self.classes.replace(cn.as_str(), updated);
                proof {
                    assert(cb.spec_get(cn@) == Some(gi));
                    assert(mid.has(cn@));
                    assert(self.classes.spec_get(cn@) == Some(gu));
                    assert forall|k: Seq<char>| k != cn@ implies #[trigger] self.classes.spec_get(k) == cb.spec_get(k) by {
                        assert(self.classes.spec_get(k) == mid.spec_get(k));
                    }
                    assert forall|k: Seq<char>| #[trigger] self.classes.has(k) == cb.has(k) by {
                        assert(self.classes.has(k) == mid.has(k));
                    }
                    assert forall|q: Seq<char>| q != a@ implies #[trigger] gu.attributes.spec_get(q) == gi.attributes.spec_get(q) by {
                        assert(gu.attributes.spec_get(q) == ab.spec_get(q));
                    }
                }
            },
            None => {
                proof {
                    assert(!cb.has(cn@));
                    assert(!self.classes.has(cn@));
                    assert(self.classes.spec_get(cn@) is None);
                    assert(cb.spec_get(cn@) is None);
                }
            },
        }
    }

    /// Checks a class: its base must exist; each attribute initializer is
    /// checked with `self` and the constructor parameters in scope and gives
    /// the attribute its type; each method body is checked with `self`, the
    /// constructor parameters and its own parameters in scope, against its
    /// declared return type. The class tables it passes through form a chain,
    /// one per member, and the errors are the base's and each member's against
    /// its table.
    #[verifier::loop_isolation(false)]
    #[verifier::rlimit(40)]
    pub fn check_class_decl(&mut self, class: &ClassDecl)
        ensures
            final(self).extends_errors(old(self)),
            final(self).protocols == old(self).protocols,
            final(self).functions == old(self).functions,
            final(self).builtin_names == old(self).builtin_names,
            final(self).current_class is None,
            forall|c: Seq<char>| #[trigger] final(self).classes.has(c) == old(self).classes.has(c),
            forall|c: Seq<char>|
                c != class.name@ ==> #[trigger] final(self).classes.spec_get(c) == old(self).classes.spec_get(c),
            old(self).classes.has(class.name@) ==> {
                let a = final(self).classes.spec_get(class.name@)->Some_0;
                let b = old(self).classes.spec_get(class.name@)->Some_0;
                a.base == b.base && a.ctor_params == b.ctor_params && a.methods == b.methods && a.span == b.span
            },
            exists|tabs: Seq<Table<ClassInfo>>|
                #![trigger class_chain(Checker::class_ctx(*old(self), *class), *class, tabs)]
                {
                    &&& class_chain(Checker::class_ctx(*old(self), *class), *class, tabs)
                    &&& tabs[0] == old(self).classes
                    &&& tabs.last() == final(self).classes
                    &&& err_views(final(self).errors@) == err_views(old(self).errors@) + base_err(
                        old(self).classes,
                        *class,
                    ) + members_errs(Checker::class_ctx(*old(self), *class), *class, class.members@, tabs)
                },
    {
        let ghost cc = Checker::class_ctx(*self, *class);
        let ghost e0 = err_views(self.errors@);
        let mut reported = false;
        if let Some(base) = &class.base {
            if !self.classes.contains_key(base.as_str()) {
                self.add_error(SemanticError::UndefinedClass { name: base.clone(), span: class.span });
                reported = true;
            }
        }
        if !reported {
            proof {
                lemma_adds_none(old(self));
            }
        }
        proof {
            assert(self.adds(old(self), base_err(old(self).classes, *class)));
        }
        self.current_class = Some(class.name.clone());
        let ghost eb = err_views(self.errors@);
        let ghost mut tabs: Seq<Table<ClassInfo>> = seq![self.classes];
        proof {
            assert(class.members@.take(0) =~= Seq::<ClassMember>::empty());
            assert(eb + members_errs(cc, *class, Seq::<ClassMember>::empty(), tabs) =~= eb);
        }
        let mut i: usize = 0;
        while i < class.members.len()
            invariant
                i <= class.members@.len(),
                self.extends_errors(old(self)),
                self.protocols == old(self).protocols,
                self.functions == old(self).functions,
                self.builtin_names == old(self).builtin_names,
                opt_view(self.current_class) == Some(class.name@),
                cc == Checker::class_ctx(*old(self), *class),
                eb == e0 + base_err(old(self).classes, *class),
                e0 == err_views(old(self).errors@),
                forall|c: Seq<char>| #[trigger] self.classes.has(c) == old(self).classes.has(c),
                forall|c: Seq<char>|
                    c != class.name@ ==> #[trigger] self.classes.spec_get(c) == old(self).classes.spec_get(c),
                old(self).classes.has(class.name@) ==> {
                    let a = self.classes.spec_get(class.name@)->Some_0;
                    let b = old(self).classes.spec_get(class.name@)->Some_0;
                    a.base == b.base && a.ctor_params == b.ctor_params && a.methods == b.methods && a.span == b.span
                },
                tabs.len() == i + 1,
                tabs[0] == old(self).classes,
                tabs[i as int] == self.classes,
                forall|j: int|
                    0 <= j < i ==> #[trigger] member_step(cc, *class, class.members@[j], tabs[j], tabs[j + 1]),
                err_views(self.errors@) == eb + members_errs(cc, *class, class.members@.take(i as int), tabs),
            decreases class.members.len() - i,
        {
            let ghost s0 = *self;
            let ghost ci = with_cls(cc, self.classes);
            let ghost m = class.members@[i as int];
            proof {
                assert(self.ctx() == ci);
            }
            let mut env = self.member_env(class);
            match &class.members[i] {
                ClassMember::Attribute { name, init, .. } => {
                    let init_ty = self.check_expr(init, &mut env);
                    proof {
                        assert(member_frames(*class, m) == seq![ctor_scope(*class)]);
                        assert(init_ty.model() == ty_of(ci, *init, member_frames(*class, m)));
                    }
                    let ghost ty = init_ty.model();
                    let ghost s1 = *self;
                    let ghost cb = self.classes;
                    self.set_attribute(&class.name, name, init_ty, class.span);
                    proof {
                        assert forall|c: Seq<char>|
                            c != class.name@ implies #[trigger] self.classes.spec_get(c) == old(self).classes.spec_get(c) by {
                            assert(self.classes.spec_get(c) == cb.spec_get(c));
                        }
                        if old(self).classes.has(class.name@) {
                            let a = self.classes.spec_get(class.name@)->Some_0;
                            let b = old(self).classes.spec_get(class.name@)->Some_0;
                            let mm = cb.spec_get(class.name@)->Some_0;
                            assert(cb.has(class.name@));
                            assert(mm.base == b.base);
                            assert(a.base == mm.base);
                        }
                        assert(member_step(cc, *class, m, tabs[i as int], self.classes));
                        assert(s1.adds(&s0, member_errs(ci, *class, m)));
                    }
                },
                ClassMember::Method { params, return_type, body, .. } => {
                    let ghost fb = env.frames();
                    self.bind_params(params, &mut env, &Type::Unknown);
                    proof {
                        assert(mframes(env.frames()) =~= member_frames(*class, m));
                    }
                    let body_ty = self.check_expr(body, &mut env);
                    let ghost s1 = *self;
                    let ghost bt = body_ty.model();
                    if let Some(ret_te) = return_type {
                        let ret_ty = self.resolve_type(ret_te);
                        if !self.is_subtype(&body_ty, &ret_ty) {
                            self.add_error(SemanticError::TypeMismatch { expected: ret_ty, got: body_ty, span: body.span });
                        } else {
                            proof {
                                lemma_adds_none(&s1);
                            }
                        }
                    } else {
                        proof {
                            lemma_adds_none(&s1);
                        }
                    }
                    proof {
                        lemma_adds_trans(
                            &s0,
                            &s1,
                            self,
                            errs_of(ci, *body, member_frames(*class, m)),
                            ret_err(ci, *return_type, bt, body.span),
                        );
                        assert(self.adds(&s0, member_errs(ci, *class, m)));
                        assert(member_step(cc, *class, m, tabs[i as int], self.classes));
                    }
                },
            }
            proof {
                let t_old = tabs;
                tabs = tabs.push(self.classes);
                lemma_members_errs_prefix(cc, *class, class.members@.take(i as int), t_old, tabs);
                let pre = class.members@.take(i + 1);
                assert(pre.drop_last() =~= class.members@.take(i as int));
                assert(pre.last() == m);
                assert(tabs[i as int] == t_old[i as int]);
                assert(with_cls(cc, tabs[i as int]) == ci);
                assert(err_views(self.errors@) =~= eb + members_errs(cc, *class, pre, tabs));
                assert forall|j: int|
                    0 <= j < i + 1 implies #[trigger] member_step(cc, *class, class.members@[j], tabs[j], tabs[j + 1]) by {
                    if j < i {
                        assert(tabs[j] == t_old[j]);
                        assert(tabs[j + 1] == t_old[j + 1]);
                    }
                }
            }
            i += 1;
        }
        self.current_class = None;
        proof {
            assert(class.members@.take(i as int) =~= class.members@);
            assert(class_chain(cc, *class, tabs));
            assert(err_views(self.errors@) =~= err_views(old(self).errors@) + base_err(old(self).classes, *class)
                + members_errs(cc, *class, class.members@, tabs));
        }
    }

    /// The second pass: the built-in constants go into the global scope, then
    /// every class, every function and the entry expression are checked. The
    /// errors end with those of the functions and of the entry expression,
    /// checked against the class table the classes left.
    #[verifier::loop_isolation(false)]
    pub fn check_program(&mut self, program: &Program, global_env: &mut Env<Type>)
        requires
            old(global_env).frames().len() > 0,
        ensures
            final(self).extends_errors(old(self)),
            final(self).protocols == old(self).protocols,
            final(self).functions == old(self).functions,
            forall|c: Seq<char>| #[trigger] final(self).classes.has(c) == old(self).classes.has(c),
            final(global_env).spec_lookup("PI"@) == Some(Type::Number),
            final(global_env).spec_lookup("E"@) == Some(Type::Number),
            old(self).current_class is None ==> final(self).current_class is None,
            exists|chains: Seq<Seq<Table<ClassInfo>>>|
                #![trigger classes_ok(old(self).protocols, old(self).functions, program.classes@, chains, old(self).classes)]
                {
                    &&& classes_ok(old(self).protocols, old(self).functions, program.classes@, chains, old(self).classes)
                    &&& final(self).classes == end_table(old(self).classes, chains)
                    &&& err_views(final(self).errors@) == err_views(old(self).errors@) + classes_errs(
                        old(self).protocols,
                        old(self).functions,
                        program.classes@,
                        chains,
                    ) + fns_errs(final(self).ctx(), program.functions@) + entry_errs(
                        final(self).ctx(),
                        program.entry,
                        with_constants(mframes(old(global_env).frames())),
                    )
                },
    {
        let ghost f0 = global_env.frames();
        global_env.define("PI", Type::Number);
        let ghost fa = global_env.frames();
        global_env.define("E", Type::Number);
        proof {
            reveal_strlit("PI");
            reveal_strlit("E");
            assert("PI"@ != "E"@) by {
                assert("PI"@.len() != "E"@.len());
            }
            assert(global_env.spec_lookup("PI"@) == Some(Type::Number));
            lemma_mframes_define(f0, fa, "PI"@, Type::Number);
            lemma_mframes_define(fa, global_env.frames(), "E"@, Type::Number);
        }
        let ghost g1 = global_env.frames();
        let ghost ps0 = self.protocols;
        let ghost fs0 = self.functions;
        let ghost t0 = self.classes;
        let ghost mut chains: Seq<Seq<Table<ClassInfo>>> = Seq::empty();
        proof {
            assert(program.classes@.take(0) =~= Seq::<ClassDecl>::empty());
            assert(err_views(self.errors@) + Seq::<ErrV>::empty() =~= err_views(self.errors@));
        }
        let mut i: usize = 0;
        while i < program.classes.len()
            invariant
                i <= program.classes@.len(),
                global_env.frames() == g1,
                self.extends_errors(old(self)),
                self.protocols == old(self).protocols,
                self.functions == old(self).functions,
                forall|c: Seq<char>| #[trigger] self.classes.has(c) == old(self).classes.has(c),
                old(self).current_class is None ==> self.current_class is None,
                ps0 == old(self).protocols,
                fs0 == old(self).functions,
                t0 == old(self).classes,
                classes_ok(ps0, fs0, program.classes@.take(i as int), chains, t0),
                self.classes == end_table(t0, chains),
                err_views(self.errors@) == err_views(old(self).errors@) + classes_errs(
                    ps0,
                    fs0,
                    program.classes@.take(i as int),
                    chains,
                ),
            decreases program.classes.len() - i,
        {
            let ghost s0 = *self;
            self.check_class_decl(&program.classes[i]);
            proof {
                let cl = program.classes@[i as int];
                let tabs = choose|tabs: Seq<Table<ClassInfo>>|
                    #![trigger class_chain(Checker::class_ctx(s0, cl), cl, tabs)]
                    {
                        &&& class_chain(Checker::class_ctx(s0, cl), cl, tabs)
                        &&& tabs[0] == s0.classes
                        &&& tabs.last() == self.classes
                        &&& err_views(self.errors@) == err_views(s0.errors@) + base_err(s0.classes, cl) + members_errs(
                            Checker::class_ctx(s0, cl),
                            cl,
                            cl.members@,
                            tabs,
                        )
                    };
                let old_chains = chains;
                chains = chains.push(tabs);
                assert(Checker::class_ctx(s0, cl) == member_ctx(ps0, fs0, cl, tabs[0]));
                let pre = program.classes@.take(i + 1);
                assert(pre.drop_last() =~= program.classes@.take(i as int));
                assert(pre[i as int] == cl);
                assert(chains.take(i as int) =~= old_chains);
                lemma_classes_errs_prefix(ps0, fs0, program.classes@.take(i as int), old_chains, chains);
                assert forall|j: int| 0 <= j < i + 1 implies #[trigger] class_chain(
                    member_ctx(ps0, fs0, pre[j], chains[j][0]),
                    pre[j],
                    chains[j],
                ) by {
                    if j < i {
                        assert(chains[j] == old_chains[j]);
                        assert(pre[j] == program.classes@.take(i as int)[j]);
                    }
                }
                assert forall|j: int| 0 <= j < i + 1 implies #[trigger] chains[j][0] == end_table(t0, chains.take(j)) by {
                    if j < i {
                        assert(chains.take(j) =~= old_chains.take(j));
                        assert(chains[j] == old_chains[j]);
                    }
                }
                assert(err_views(self.errors@) =~= err_views(old(self).errors@) + classes_errs(ps0, fs0, pre, chains));
                assert(classes_ok(ps0, fs0, pre, chains, t0));
            }
            i += 1;
        }
        proof {
            assert(program.classes@.take(i as int) =~= program.classes@);
        }
        let ghost mid = *self;
        proof {
            assert(program.functions@.take(0) =~= Seq::<FunctionDecl>::empty());
            assert(err_views(mid.errors@) + Seq::<ErrV>::empty() =~= err_views(mid.errors@));
        }
        let mut j: usize = 0;
        while j < program.functions.len()
            invariant
                j <= program.functions@.len(),
                global_env.frames() == g1,
                self.extends_errors(&mid),
                self.same_tables(&mid),
                mid.extends_errors(old(self)),
                old(self).current_class is None ==> mid.current_class is None,
                mid.protocols == old(self).protocols,
                mid.functions == old(self).functions,
                forall|c: Seq<char>| #[trigger] mid.classes.has(c) == old(self).classes.has(c),
                err_views(self.errors@) == err_views(mid.errors@) + fns_errs(mid.ctx(), program.functions@.take(j as int)),
            decreases program.functions.len() - j,
        {
            let ghost s0 = *self;
            self.check_function_decl(&program.functions[j], global_env);
            proof {
                let pre = program.functions@.take(j + 1);
                assert(pre.drop_last() =~= program.functions@.take(j as int));
                assert(pre.last() == program.functions@[j as int]);
                assert(err_views(mid.errors@) + fns_errs(mid.ctx(), program.functions@.take(j as int)) + fn_errs(
                    mid.ctx(),
                    program.functions@[j as int],
                ) =~= err_views(mid.errors@) + fns_errs(mid.ctx(), pre));
            }
            j += 1;
        }
        proof {
            assert(program.functions@.take(j as int) =~= program.functions@);
        }
        let ghost s2 = *self;
        let ghost fe = fns_errs(mid.ctx(), program.functions@);
        if let Some(entry) = &program.entry {
            self.check_expr(entry, global_env);
        } else {
            proof {
                lemma_adds_none(&s2);
            }
        }
        proof {
            let ee = entry_errs(mid.ctx(), program.entry, with_constants(mframes(f0)));
            assert(self.adds(&s2, ee));
            assert(self.ctx() == mid.ctx());
            assert(err_views(self.errors@) =~= err_views(old(self).errors@) + classes_errs(
                ps0,
                fs0,
                program.classes@,
                chains,
            ) + fe + ee);
            assert(classes_ok(ps0, fs0, program.classes@, chains, t0));
        }
    }
}

} // verus!
