//! Macro expansion: a macro body with its parameters replaced by what the
//! call passes.
use vstd::prelude::*;
use crate::ast::{copy_type_opt, copy_params, no_leaf, rel, rel_node, same_expr, same_type, same_type_opt, Binding, CaseArm, Expr, ExprS, Spanned};
use crate::sema::table::Table;

verus! {

/// What replaces a leaf of a macro body: a variable or `@name` reference to a
/// parameter in `vsubs` becomes (a copy of) its expression, a `$name` of a
/// parameter in `nsubs` becomes the caller's variable name as a string at the
/// same place; any other expression is rebuilt from its parts.
pub open spec fn subst_leaf(vsubs: Table<ExprS>, nsubs: Table<String>) -> spec_fn(ExprS, ExprS) -> Option<bool> {
    |x: ExprS, y: ExprS|
        match x.node {
            Expr::Var(n) => match vsubs.spec_get(n@) {
                Some(rep) => Some(same_expr(rep, y)),
                None => None,
            },
            Expr::MacroArgRef(n) => match vsubs.spec_get(n@) {
                Some(rep) => Some(same_expr(rep, y)),
                None => None,
            },
            Expr::MacroArgName(n) => match nsubs.spec_get(n@) {
                Some(s) => Some(y.span == x.span && (y.node matches Expr::Str(t) && t@ == s@)),
                None => None,
            },
            _ => None,
        }
}

/// Substituting nothing copies: with no substitutions, what `substitute`
/// gives back is the expression itself.
pub proof fn law_substitute_nothing(e: ExprS, r: ExprS, vsubs: Table<ExprS>, nsubs: Table<String>)
    requires
        vsubs.entries().len() == 0,
        nsubs.entries().len() == 0,
        rel(e, r, subst_leaf(vsubs, nsubs)),
    ensures
        same_expr(e, r),
{
    assert forall|x: ExprS, y: ExprS| #[trigger] subst_leaf(vsubs, nsubs)(x, y) == no_leaf()(x, y) by {
        match x.node {
            Expr::Var(k) => assert(vsubs.spec_get(k@) is None),
            Expr::MacroArgRef(k) => assert(vsubs.spec_get(k@) is None),
            Expr::MacroArgName(k) => assert(nsubs.spec_get(k@) is None),
            _ => {},
        }
    }
    assert(subst_leaf(vsubs, nsubs) =~= no_leaf());
}

/// `es` with every variable and `@name` reference to a parameter in `vsubs`
/// replaced by its expression, and every `$name` of a parameter in `nsubs`
/// replaced by the caller's variable name as a string.
pub fn substitute(es: &ExprS, vsubs: &Table<ExprS>, nsubs: &Table<String>) -> (r: ExprS)
    ensures
        rel(*es, r, subst_leaf(*vsubs, *nsubs)),
    decreases es,
{
    match &es.node {
        Expr::Var(name) => {
            if let Some(rep) = vsubs.get(name.as_str()) {
                return rep.copy();
            }
        },
        Expr::MacroArgRef(name) => {
            if let Some(rep) = vsubs.get(name.as_str()) {
                return rep.copy();
            }
        },
        Expr::MacroArgName(name) => {
            if let Some(s) = nsubs.get(name.as_str()) {
                return Spanned::new(Expr::Str(s.clone()), es.span);
            }
        },
        _ => {},
    }
    Spanned { node: subst_node(&es.node, vsubs, nsubs), span: es.span }
}

/// Each element with the substitutions made.
fn subst_exprs(v: &Vec<ExprS>, vsubs: &Table<ExprS>, nsubs: &Table<String>) -> (r: Vec<ExprS>)
    ensures
        r@.len() == v@.len(),
        forall|i: int| 0 <= i < v@.len() ==> rel(#[trigger] v@[i], r@[i], subst_leaf(*vsubs, *nsubs)),
    decreases v,
{
    let mut out: Vec<ExprS> = Vec::new();
    let mut i: usize = 0;
    while i < v.len()
        invariant
            i <= v.len(),
            out@.len() == i,
            forall|k: int| 0 <= k < i ==> rel(#[trigger] v@[k], out@[k], subst_leaf(*vsubs, *nsubs)),
        decreases v.len() - i,
    {
        proof {
            assert(decreases_to!(v@ => v@[i as int]));
            assert(decreases_to!(*v => v@));
        }
        let x = substitute(&v[i], vsubs, nsubs);
        let ghost before = out@;
        out.push(x);
        proof {
            assert forall|k: int| 0 <= k < i + 1 implies rel(#[trigger] v@[k], out@[k], subst_leaf(*vsubs, *nsubs)) by {
                if k < i {
                    assert(out@[k] == before[k]);
                }
            }
        }
        i += 1;
    }
    out
}

/// Both parts of `y` are those of `x` with the substitutions made.
pub open spec fn pair_rel(x: (ExprS, ExprS), y: (ExprS, ExprS), leaf: spec_fn(ExprS, ExprS) -> Option<bool>) -> bool {
    rel(x.0, y.0, leaf) && rel(x.1, y.1, leaf)
}

/// Each pair with the substitutions made.
fn subst_pairs(v: &Vec<(ExprS, ExprS)>, vsubs: &Table<ExprS>, nsubs: &Table<String>) -> (r: Vec<(ExprS, ExprS)>)
    ensures
        r@.len() == v@.len(),
        forall|i: int|
            0 <= i < v@.len() ==> rel(#[trigger] v@[i].0, r@[i].0, subst_leaf(*vsubs, *nsubs)) && rel(
                v@[i].1,
                r@[i].1,
                subst_leaf(*vsubs, *nsubs),
            ),
    decreases v,
{
    let ghost leaf = subst_leaf(*vsubs, *nsubs);
    let mut out: Vec<(ExprS, ExprS)> = Vec::new();
    let mut i: usize = 0;
    while i < v.len()
        invariant
            i <= v.len(),
            out@.len() == i,
            leaf == subst_leaf(*vsubs, *nsubs),
            forall|k: int| 0 <= k < i ==> #[trigger] pair_rel(v@[k], out@[k], leaf),
        decreases v.len() - i,
    {
        proof {
            assert(decreases_to!(v@ => v@[i as int]));
            assert(decreases_to!(*v => v@));
        }
        let a = substitute(&v[i].0, vsubs, nsubs);
        let b = substitute(&v[i].1, vsubs, nsubs);
        let ghost before = out@;
        let ghost pa = a;
        let ghost pb = b;
        out.push((a, b));
        proof {
            assert(pair_rel(v@[i as int], out@[i as int], leaf));
            assert forall|k: int| 0 <= k < i + 1 implies #[trigger] pair_rel(v@[k], out@[k], leaf) by {
                if k < i {
                    assert(out@[k] == before[k]);
                }
            }
        }
        i += 1;
    }
    proof {
        assert forall|k: int| 0 <= k < v@.len() implies rel(#[trigger] v@[k].0, out@[k].0, leaf) && rel(
            v@[k].1,
            out@[k].1,
            leaf,
        ) by {
            assert(pair_rel(v@[k], out@[k], leaf));
        }
    }
    out
}

/// The node `e` with the substitutions made in its parts.
#[verifier::loop_isolation(false)]
fn subst_node(e: &Expr, vsubs: &Table<ExprS>, nsubs: &Table<String>) -> (r: Expr)
    ensures
        rel_node(*e, r, subst_leaf(*vsubs, *nsubs)),
    decreases e,
{
    match e {
        Expr::Number(n) => Expr::Number(n.clone()),
        Expr::Bool(b) => Expr::Bool(*b),
        Expr::Str(t) => Expr::Str(t.clone()),
        Expr::Null => Expr::Null,
        Expr::Var(n) => Expr::Var(n.clone()),
        Expr::Self_ => Expr::Self_,
        Expr::Unary { op, operand } => Expr::Unary { op: *op, operand: Box::new(substitute(operand, vsubs, nsubs)) },
        Expr::Binary { op, left, right } => Expr::Binary {
            op: *op,
            left: Box::new(substitute(left, vsubs, nsubs)),
            right: Box::new(substitute(right, vsubs, nsubs)),
        },
        Expr::Assign { target, value } => Expr::Assign {
            target: Box::new(substitute(target, vsubs, nsubs)),
            value: Box::new(substitute(value, vsubs, nsubs)),
        },
        Expr::Let { bindings, body } => {
            let mut bs: Vec<Binding> = Vec::new();
            let mut i: usize = 0;
            while i < bindings.len()
                invariant
                    i <= bindings.len(),
                    bs@.len() == i,
                    forall|k: int|
                        0 <= k < i ==> (#[trigger] bindings@[k]).name@ == bs@[k].name@ && bindings@[k].span
                            == bs@[k].span && same_type_opt(bindings@[k].type_ann, bs@[k].type_ann)
                            && rel(bindings@[k].init, bs@[k].init, subst_leaf(*vsubs, *nsubs)),
                decreases bindings.len() - i,
            {
                proof {
                    assert(decreases_to!(bindings@ => bindings@[i as int]));
                    assert(decreases_to!(*bindings => bindings@));
                }
                let b = &bindings[i];
                bs.push(Binding {
                    name: b.name.clone(),
                    type_ann: copy_type_opt(&b.type_ann),
                    init: substitute(&b.init, vsubs, nsubs),
                    span: b.span,
                });
                i += 1;
            }
            Expr::Let { bindings: bs, body: Box::new(substitute(body, vsubs, nsubs)) }
        },
        Expr::If { cond, then, elif_branches, else_branch } => {
            let eb = match else_branch {
                Some(e) => Some(Box::new(substitute(e, vsubs, nsubs))),
                None => None,
            };
            Expr::If {
                cond: Box::new(substitute(cond, vsubs, nsubs)),
                then: Box::new(substitute(then, vsubs, nsubs)),
                elif_branches: subst_pairs(elif_branches, vsubs, nsubs),
                else_branch: eb,
            }
        },
        Expr::While { cond, body } => Expr::While { cond: Box::new(substitute(cond, vsubs, nsubs)), body: Box::new(substitute(body, vsubs, nsubs)) },
        Expr::Block(stmts) => Expr::Block(subst_exprs(stmts, vsubs, nsubs)),
        Expr::Call { callee, args } => Expr::Call { callee: callee.clone(), args: subst_exprs(args, vsubs, nsubs) },
        Expr::MethodCall { object, method, args } => Expr::MethodCall {
            object: Box::new(substitute(object, vsubs, nsubs)),
            method: method.clone(),
            args: subst_exprs(args, vsubs, nsubs),
        },
        Expr::FieldAccess { object, field } => Expr::FieldAccess {
            object: Box::new(substitute(object, vsubs, nsubs)),
            field: field.clone(),
        },
        Expr::Index { array, index } => Expr::Index {
            array: Box::new(substitute(array, vsubs, nsubs)),
            index: Box::new(substitute(index, vsubs, nsubs)),
        },
        Expr::New { ty_name, args } => Expr::New { ty_name: ty_name.clone(), args: subst_exprs(args, vsubs, nsubs) },
        Expr::NewArray { ty_name, size, init } => {
            let i2 = match init {
                Some(e) => Some(Box::new(substitute(e, vsubs, nsubs))),
                None => None,
            };
            Expr::NewArray { ty_name: ty_name.clone(), size: Box::new(substitute(size, vsubs, nsubs)), init: i2 }
        },
        Expr::Case { expr, arms } => {
            let mut out: Vec<CaseArm> = Vec::new();
            let mut i: usize = 0;
            while i < arms.len()
                invariant
                    i <= arms.len(),
                    out@.len() == i,
                    forall|k: int|
                        0 <= k < i ==> (#[trigger] arms@[k]).binding@ == out@[k].binding@ && arms@[k].span
                            == out@[k].span && same_type(arms@[k].type_ann, out@[k].type_ann) && rel(
                            arms@[k].body,
                            out@[k].body,
                            subst_leaf(*vsubs, *nsubs),
                        ),
                decreases arms.len() - i,
            {
                proof {
                    assert(decreases_to!(arms@ => arms@[i as int]));
                    assert(decreases_to!(*arms => arms@));
                }
                let a = &arms[i];
                out.push(CaseArm {
                    binding: a.binding.clone(),
                    type_ann: a.type_ann.copy(),
                    body: substitute(&a.body, vsubs, nsubs),
                    span: a.span,
                });
                i += 1;
            }
            Expr::Case { expr: Box::new(substitute(expr, vsubs, nsubs)), arms: out }
        },
        Expr::With { expr, binding, body, fallback } => Expr::With {
            expr: Box::new(substitute(expr, vsubs, nsubs)),
            binding: binding.clone(),
            body: Box::new(substitute(body, vsubs, nsubs)),
            fallback: Box::new(substitute(fallback, vsubs, nsubs)),
        },
        Expr::For { var, iter, body } => Expr::For {
            var: var.clone(),
            iter: Box::new(substitute(iter, vsubs, nsubs)),
            body: Box::new(substitute(body, vsubs, nsubs)),
        },
        Expr::IsInstance { expr, ty_name } => Expr::IsInstance {
            expr: Box::new(substitute(expr, vsubs, nsubs)),
            ty_name: ty_name.clone(),
        },
        Expr::Cast { expr, ty_name } => Expr::Cast { expr: Box::new(substitute(expr, vsubs, nsubs)), ty_name: ty_name.clone() },
        Expr::VecLit { elements } => Expr::VecLit { elements: subst_exprs(elements, vsubs, nsubs) },
        Expr::VecComp { body, var, iter } => Expr::VecComp {
            body: Box::new(substitute(body, vsubs, nsubs)),
            var: var.clone(),
            iter: Box::new(substitute(iter, vsubs, nsubs)),
        },
        Expr::Base { args } => Expr::Base { args: subst_exprs(args, vsubs, nsubs) },
        Expr::Lambda { params, body } => Expr::Lambda { params: copy_params(params), body: Box::new(substitute(body, vsubs, nsubs)) },
        Expr::MacroArgRef(n) => Expr::MacroArgRef(n.clone()),
        Expr::MacroArgName(n) => Expr::MacroArgName(n.clone()),
        Expr::MacroMatch { subject, cases, default_body } => Expr::MacroMatch {
            subject: Box::new(substitute(subject, vsubs, nsubs)),
            cases: subst_pairs(cases, vsubs, nsubs),
            default_body: Box::new(substitute(default_body, vsubs, nsubs)),
        },
    }
}

} // verus!
