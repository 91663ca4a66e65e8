//! The type checker of the small expression language.
use vstd::prelude::*;
use crate::sema::table::Table;
use crate::text::push_str;
use super::ast::{Expr, Program, Stmt, Type, TypeM, models_m, texts, joined};

verus! {

#[derive(Debug)]
pub enum CheckError {
    TypeError(String),
}

/// How `Display` writes a type, from its model.
pub open spec fn mtext(t: TypeM) -> Seq<char>
    decreases t,
{
    match t {
        TypeM::Int => "int"@,
        TypeM::Bool => "bool"@,
        TypeM::Func(args, ret) => {
            proof {
                assert(decreases_to!(t => args));
            }
            "("@ + joined(mtexts(args)) + ") -> "@ + mtext(*ret)
        },
    }
}

pub open spec fn mtexts(ts: Seq<TypeM>) -> Seq<Seq<char>>
    decreases ts,
{
    if ts.len() == 0 {
        Seq::empty()
    } else {
        mtexts(ts.subrange(0, ts.len() - 1)).push(mtext(ts[ts.len() - 1]))
    }
}

proof fn lemma_text_model(t: Type)
    ensures
        t.text() == mtext(t.model()),
    decreases t,
{
    if let Type::Func(args, ret) = t {
        assert(decreases_to!(t => args@));
        lemma_texts_models(args@);
        lemma_text_model(*ret);
    }
}

proof fn lemma_texts_models(ts: Seq<Type>)
    ensures
        texts(ts) == mtexts(models_m(ts)),
    decreases ts,
{
    if ts.len() > 0 {
        let pre = ts.subrange(0, ts.len() - 1);
        lemma_texts_models(pre);
        lemma_text_model(ts[ts.len() - 1]);
        assert(models_m(ts).subrange(0, models_m(ts).len() - 1) =~= models_m(pre)) by {
            lemma_models_m_len(pre);
        }
        lemma_models_m_len(ts);
    }
}

proof fn lemma_models_m_len(ts: Seq<Type>)
    ensures
        models_m(ts).len() == ts.len(),
    decreases ts.len(),
{
    if ts.len() > 0 {
        lemma_models_m_len(ts.subrange(0, ts.len() - 1));
    }
}

/// The type of `e` where names have the types `env` gives, or the error.
pub open spec fn infer(e: Expr, env: spec_fn(Seq<char>) -> Option<TypeM>) -> Result<TypeM, Seq<char>>
    decreases e,
{
    match e {
        Expr::Int(_) => Ok(TypeM::Int),
        Expr::Bool(_) => Ok(TypeM::Bool),
        Expr::Ident(name) => match env(name@) {
            Some(t) => Ok(t),
            None => Err("Unknown identifier: "@ + name@),
        },
        Expr::Binary(l, _, r) => match infer(*l, env) {
            Err(m) => Err(m),
            Ok(lt) => match infer(*r, env) {
                Err(m) => Err(m),
                Ok(rt) => if lt != TypeM::Int || rt != TypeM::Int {
                    Err("binary arithmetic requires int operands"@)
                } else {
                    Ok(TypeM::Int)
                },
            },
        },
        Expr::If(c, t, f) => match infer(*c, env) {
            Err(m) => Err(m),
            Ok(ct) => if ct != TypeM::Bool {
                Err("if condition must be bool"@)
            } else {
                match infer(*t, env) {
                    Err(m) => Err(m),
                    Ok(tt) => match f {
                        None => Ok(tt),
                        Some(x) => match infer(*x, env) {
                            Err(m) => Err(m),
                            Ok(et) => if tt != et {
                                Err("then and else must have same type"@)
                            } else {
                                Ok(tt)
                            },
                        },
                    },
                }
            },
        },
    }
}

/// `env` with `name` bound to `t`.
pub open spec fn bind(env: spec_fn(Seq<char>) -> Option<TypeM>, name: Seq<char>, t: TypeM) -> spec_fn(Seq<char>) -> Option<TypeM> {
    |n: Seq<char>| if n == name { Some(t) } else { env(n) }
}

/// Checking the statements from `i` on in `env`: the first error, if any.
pub open spec fn check_from(ss: Seq<Stmt>, i: int, env: spec_fn(Seq<char>) -> Option<TypeM>) -> Result<(), Seq<char>>
    decreases ss.len() - i,
{
    if i < 0 || i >= ss.len() {
        Ok(())
    } else {
        match ss[i] {
            Stmt::Let { name, ty, expr } => match infer(expr, env) {
                Err(m) => Err(m),
                Ok(et) => match ty {
                    Some(d) => if et != d.model() {
                        Err("Type mismatch in let "@ + name@ + ": declared "@ + mtext(d.model()) + ", found "@ + mtext(et))
                    } else {
                        check_from(ss, i + 1, bind(env, name@, d.model()))
                    },
                    None => check_from(ss, i + 1, bind(env, name@, et)),
                },
            },
            Stmt::Expr(expr) => match infer(expr, env) {
                Err(m) => Err(m),
                Ok(_) => check_from(ss, i + 1, env),
            },
        }
    }
}

/// The types a table gives its names.
pub open spec fn env_of(t: Table<Type>) -> spec_fn(Seq<char>) -> Option<TypeM> {
    |n: Seq<char>| match t.spec_get(n) {
        Some(x) => Some(x.model()),
        None => None,
    }
}

/// Infers the type of an expression, with names typed by `env`.
pub fn infer_expr_type(expr: &Expr, env: &Table<Type>) -> (r: Result<Type, String>)
    ensures
        match infer(*expr, env_of(*env)) {
            Ok(t) => r matches Ok(x) && x.model() == t,
            Err(m) => r matches Err(x) && x@ == m,
        },
    decreases expr,
{
    match expr {
        Expr::Int(_) => Ok(Type::Int),
        Expr::Bool(_) => Ok(Type::Bool),
        Expr::Ident(name) => match env.get(name.as_str()) {
            Some(t) => Ok(t.copy()),
            None => {
                let mut m = "Unknown identifier: ".to_owned();
                push_str(&mut m, name.as_str());
                Err(m)
            },
        },
        Expr::Binary(l, _, r) => {
            let lt = match infer_expr_type(l, env) {
                Ok(t) => t,
                Err(m) => return Err(m),
            };
            let rt = match infer_expr_type(r, env) {
                Ok(t) => t,
                Err(m) => return Err(m),
            };
            if !lt.same(&Type::Int) || !rt.same(&Type::Int) {
                return Err("binary arithmetic requires int operands".to_owned());
            }
            Ok(Type::Int)
        },
        Expr::If(c, t, f) => {
            let ct = match infer_expr_type(c, env) {
                Ok(t) => t,
                Err(m) => return Err(m),
            };
            if !ct.same(&Type::Bool) {
                return Err("if condition must be bool".to_owned());
            }
            let tt = match infer_expr_type(t, env) {
                Ok(t) => t,
                Err(m) => return Err(m),
            };
            if let Some(e) = f {
                let et = match infer_expr_type(e, env) {
                    Ok(t) => t,
                    Err(m) => return Err(m),
                };
                if !tt.same(&et) {
                    return Err("then and else must have same type".to_owned());
                }
            }
            Ok(tt)
        },
    }
}

/// Checks the statements in order: each `let` binds its name to its declared
/// type, which its expression must have, or else to its expression's type.
pub fn check(prog: &Program) -> (r: Result<(), String>)
    ensures
        match check_from(prog.stmts@, 0, |n: Seq<char>| None::<TypeM>) {
            Ok(()) => r is Ok,
            Err(m) => r matches Err(x) && x@ == m,
        },
{
    let mut env: Table<Type> = Table::new();
    let ghost e0 = env_of(env);
    proof {
        assert(e0 =~= (|n: Seq<char>| None::<TypeM>));
    }
    let mut i: usize = 0;
    while i < prog.stmts.len()
        invariant
            i <= prog.stmts@.len(),
            check_from(prog.stmts@, 0, |n: Seq<char>| None::<TypeM>) == check_from(prog.stmts@, i as int, env_of(env)),
        decreases prog.stmts.len() - i,
    {
        match &prog.stmts[i] {
            Stmt::Let { name, ty, expr } => {
                let expr_ty = match infer_expr_type(expr, &env) {
                    Ok(t) => t,
                    Err(m) => return Err(m),
                };
                let ghost eb = env;
                match ty {
                    Some(declared) => {
                        if !expr_ty.same(declared) {
                            let mut m = "Type mismatch in let ".to_owned();
                            push_str(&mut m, name.as_str());
                            push_str(&mut m, ": declared ");
                            let d = declared.to_text();
                            push_str(&mut m, d.as_str());
                            push_str(&mut m, ", found ");
                            let f = expr_ty.to_text();
                            push_str(&mut m, f.as_str());
                            proof {
                                lemma_text_model(*declared);
                                lemma_text_model(expr_ty);
                            }
                            return Err(m);
                        }
                        env.insert(name.clone(), declared.copy());
                        proof {
                            assert(env_of(env) =~= bind(env_of(eb), name@, declared.model()));
                        }
                    },
                    None => {
                        let ghost em = expr_ty.model();
                        env.insert(name.clone(), expr_ty);
                        proof {
                            assert(env_of(env) =~= bind(env_of(eb), name@, em));
                        }
                    },
                }
            },
            Stmt::Expr(expr) => {
                match infer_expr_type(expr, &env) {
                    Ok(_) => {},
                    Err(m) => return Err(m),
                }
            },
        }
        i += 1;
    }
    Ok(())
}

} // verus!
