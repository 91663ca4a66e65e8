//! Macro calls: how each argument is passed, by the kind of its parameter.
use vstd::prelude::*;
use crate::ast::{same_expr, Expr, ExprS, MacroDecl, MacroParam, MacroParamKind, Spanned};
use crate::sema::table::Table;
use crate::text::push_str;
use super::error::RuntimeError;

verus! {

/// How a macro call passes its arguments: value parameters by the position of
/// their argument, to evaluate in the caller; by-reference and by-name
/// parameters as expressions to put in their place; variable-name parameters
/// as the caller's variable name.
pub struct MacroPlan {
    pub values: Vec<(String, usize)>,
    pub vsubs: Table<ExprS>,
    pub nsubs: Table<String>,
}

/// The argument cannot be passed to the parameter: a by-reference parameter
/// needs `@var` or a variable, a variable-name parameter `$var` or a variable.
pub open spec fn bad_arg(p: MacroParam, a: ExprS) -> bool {
    match p.kind {
        MacroParamKind::ByRef => !(a.node is MacroArgRef || a.node is Var),
        MacroParamKind::VarName => !(a.node is MacroArgName || a.node is Var),
        _ => false,
    }
}

/// The name an argument for a by-reference or variable-name parameter gives.
pub open spec fn arg_name(a: ExprS) -> Seq<char> {
    match a.node {
        Expr::MacroArgRef(n) => n@,
        Expr::MacroArgName(n) => n@,
        Expr::Var(n) => n@,
        _ => Seq::empty(),
    }
}

/// Parameter names of the value parameters among the first `k`, with their positions.
pub open spec fn value_params(ps: Seq<MacroParam>, k: int) -> Seq<(Seq<char>, int)>
    decreases k,
{
    if k <= 0 {
        Seq::empty()
    } else {
        let rest = value_params(ps, k - 1);
        if ps[k - 1].kind is Value {
            rest.push((ps[k - 1].name@, k - 1))
        } else {
            rest
        }
    }
}

/// Among the first `k` parameters, the last one named `q` that is passed as
/// an expression (`by_expr`: by reference or by name) or as a variable name
/// (otherwise).
pub open spec fn last_sub(ps: Seq<MacroParam>, k: int, q: Seq<char>, by_expr: bool) -> Option<int>
    decreases k,
{
    if k <= 0 {
        None
    } else if ps[k - 1].name@ == q && (if by_expr {
        ps[k - 1].kind is ByRef || ps[k - 1].kind is ByName
    } else {
        ps[k - 1].kind is VarName
    }) {
        Some(k - 1)
    } else {
        last_sub(ps, k - 1, q, by_expr)
    }
}

/// What a by-reference or by-name parameter `p` with argument `a` is replaced
/// by: the caller's variable, at the argument's place, or the argument itself.
pub open spec fn expr_sub(p: MacroParam, a: ExprS, rep: ExprS) -> bool {
    if p.kind is ByRef {
        rep.span == a.span && (rep.node matches Expr::Var(n) && n@ == arg_name(a))
    } else {
        same_expr(a, rep)
    }
}

/// The substitutions of a plan for the first `k` parameters: each name maps to
/// what its last parameter of that way of passing gets.
pub open spec fn subs_planned(ps: Seq<MacroParam>, args: Seq<ExprS>, k: int, plan: MacroPlan) -> bool {
    &&& forall|q: Seq<char>|
        match #[trigger] last_sub(ps, k, q, true) {
            Some(j) => plan.vsubs.spec_get(q) is Some && expr_sub(ps[j], args[j], plan.vsubs.spec_get(q)->Some_0),
            None => plan.vsubs.spec_get(q) is None,
        }
    &&& forall|q: Seq<char>|
        match #[trigger] last_sub(ps, k, q, false) {
            Some(j) => plan.nsubs.spec_get(q) is Some && plan.nsubs.spec_get(q)->Some_0@ == arg_name(args[j]),
            None => plan.nsubs.spec_get(q) is None,
        }
}

/// Plans a call of `mac` with argument expressions `args`, pairing parameters
/// and arguments in order as far as both go; fails at the first argument that
/// its parameter cannot take, with its position.
pub fn plan_macro(mac: &MacroDecl, args: &Vec<ExprS>) -> (r: Result<MacroPlan, (usize, RuntimeError)>)
    ensures
        ({
            let k = if mac.params@.len() < args@.len() { mac.params@.len() } else { args@.len() };
            match r {
                Ok(plan) => (forall|j: int| 0 <= j < k ==> !bad_arg(mac.params@[j], args@[j])) && plan.values@.map_values(
                    |v: (String, usize)| (v.0@, v.1 as int),
                ) == value_params(mac.params@, k as int) && subs_planned(mac.params@, args@, k as int, plan),
                Err((i, e)) => i < k && bad_arg(mac.params@[i as int], args@[i as int]) && (forall|j: int|
                    0 <= j < i ==> !bad_arg(mac.params@[j], args@[j])) && e is UndefinedFunction,
            }
        }),
{
    let k = if mac.params.len() < args.len() { mac.params.len() } else { args.len() };
    let mut values: Vec<(String, usize)> = Vec::new();
    let mut vsubs: Table<ExprS> = Table::new();
    let mut nsubs: Table<String> = Table::new();
    let mut i: usize = 0;
    proof {
        assert(values@.map_values(|v: (String, usize)| (v.0@, v.1 as int)) =~= Seq::<(Seq<char>, int)>::empty());
    }
    while i < k
        invariant
            i <= k,
            k <= mac.params@.len(),
            k <= args@.len(),
            forall|j: int| 0 <= j < i ==> !bad_arg(mac.params@[j], args@[j]),
            values@.map_values(|v: (String, usize)| (v.0@, v.1 as int)) == value_params(mac.params@, i as int),
            subs_planned(mac.params@, args@, i as int, MacroPlan { values, vsubs, nsubs }),
        decreases k - i,
    {
        let param = &mac.params[i];
        let arg = &args[i];
        let ghost before = values@;
        let ghost old_v = vsubs;
        let ghost old_n = nsubs;
        match param.kind {
            MacroParamKind::Value => {
                values.push((param.name.clone(), i));
                proof {
                    assert(values@.map_values(|v: (String, usize)| (v.0@, v.1 as int)) =~= before.map_values(
                        |v: (String, usize)| (v.0@, v.1 as int),
                    ).push((param.name@, i as int)));
                }
            },
            MacroParamKind::ByRef => {
                let caller_var = match &arg.node {
                    Expr::MacroArgRef(name) => name.clone(),
                    Expr::Var(name) => name.clone(),
                    _ => {
                        let mut m = "expected @var for by-ref param '".to_owned();
                        push_str(&mut m, param.name.as_str());
                        push_str(&mut m, "'");
                        return Err((i, RuntimeError::UndefinedFunction { name: m }));
                    },
                };
                vsubs.insert(param.name.clone(), Spanned::new(Expr::Var(caller_var), arg.span));
            },
            MacroParamKind::ByName => {
                vsubs.insert(param.name.clone(), arg.copy());
            },
            MacroParamKind::VarName => {
                let caller_var = match &arg.node {
                    Expr::MacroArgName(name) => name.clone(),
                    Expr::Var(name) => name.clone(),
                    _ => {
                        let mut m = "expected $var for varname param '".to_owned();
                        push_str(&mut m, param.name.as_str());
                        push_str(&mut m, "'");
                        return Err((i, RuntimeError::UndefinedFunction { name: m }));
                    },
                };
                nsubs.insert(param.name.clone(), caller_var);
            },
        }
        proof {
            let ps = mac.params@;
            let ii = i as int;
            assert forall|q: Seq<char>|
                match #[trigger] last_sub(ps, ii + 1, q, true) {
                    Some(j) => vsubs.spec_get(q) is Some && expr_sub(ps[j], args@[j], vsubs.spec_get(q)->Some_0),
                    None => vsubs.spec_get(q) is None,
                } by {
                assert(last_sub(ps, ii, q, true) == last_sub(ps, ii, q, true));
                if !(ps[ii].name@ == q && (ps[ii].kind is ByRef || ps[ii].kind is ByName)) {
                    assert(vsubs.spec_get(q) == old_v.spec_get(q));
                }
            }
            assert forall|q: Seq<char>|
                match #[trigger] last_sub(ps, ii + 1, q, false) {
                    Some(j) => nsubs.spec_get(q) is Some && nsubs.spec_get(q)->Some_0@ == arg_name(args@[j]),
                    None => nsubs.spec_get(q) is None,
                } by {
                assert(last_sub(ps, ii, q, false) == last_sub(ps, ii, q, false));
                if !(ps[ii].name@ == q && ps[ii].kind is VarName) {
                    assert(nsubs.spec_get(q) == old_n.spec_get(q));
                }
            }
        }
        i += 1;
    }
    Ok(MacroPlan { values, vsubs, nsubs })
}

} // verus!
