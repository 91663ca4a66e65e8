//! The functions and classes every program starts with.
use vstd::prelude::*;
use crate::lexer::Span;
use super::checker::{Checker, FuncInfo, MethodInfo, ClassInfo, opt_sig, base_in};
use super::table::Table;
use super::types::{Type, TypeV, models};

verus! {

pub open spec fn opt_fsig(o: Option<FuncInfo>) -> Option<(Seq<TypeV>, TypeV)> {
    match o {
        Some(f) => Some(f.sig()),
        None => None,
    }
}

/// Signatures of the built-in functions.
pub open spec fn builtin_fn(n: Seq<char>) -> Option<(Seq<TypeV>, TypeV)> {
    if n == "print"@ {
        Some((seq![TypeV::Object], TypeV::Object))
    } else if n == "sqrt"@ || n == "sin"@ || n == "cos"@ || n == "tan"@ || n == "exp"@ {
        Some((seq![TypeV::Number], TypeV::Number))
    } else if n == "log"@ {
        Some((seq![TypeV::Number, TypeV::Number], TypeV::Number))
    } else if n == "rand"@ {
        Some((Seq::empty(), TypeV::Number))
    } else if n == "range"@ {
        Some((seq![TypeV::Number], TypeV::Array(Box::new(TypeV::Number))))
    } else {
        None
    }
}

/// Names of the built-in classes.
pub open spec fn builtin_class(n: Seq<char>) -> bool {
    n == "Object"@ || n == "String"@ || n == "Number"@ || n == "Boolean"@
}

/// The base of a built-in class: none for `Object`, `Object` for the others.
pub open spec fn builtin_base(n: Seq<char>) -> Option<Seq<char>> {
    if n == "Object"@ { None } else { Some("Object"@) }
}

/// In `t`, the built-in class `n` has its own base and no constructor parameters.
pub open spec fn builtin_shell(t: Table<ClassInfo>, n: Seq<char>) -> bool {
    &&& base_in(t, n) == builtin_base(n)
    &&& t.spec_get(n)->Some_0.ctor_params@.len() == 0
}

/// In `t`, the built-in class `n` has its own methods and no attributes.
pub open spec fn builtin_members(t: Table<ClassInfo>, n: Seq<char>) -> bool {
    &&& t.spec_get(n)->Some_0.attributes.entries().len() == 0
    &&& forall|m: Seq<char>| #[trigger] opt_sig(t.spec_get(n)->Some_0.methods.spec_get(m)) == builtin_method(n, m)
}

/// Methods of the built-in classes.
pub open spec fn builtin_method(c: Seq<char>, m: Seq<char>) -> Option<(Seq<TypeV>, TypeV)> {
    if c == "Object"@ && m == "getType"@ {
        Some((Seq::empty(), TypeV::Str))
    } else if c == "String"@ && (m == "length"@ || m == "toNumber"@) {
        Some((Seq::empty(), TypeV::Number))
    } else if c == "String"@ && m == "concat"@ {
        Some((seq![TypeV::Str], TypeV::Str))
    } else if c == "Number"@ && m == "toString"@ {
        Some((Seq::empty(), TypeV::Str))
    } else {
        None
    }
}

/// The built-in names are pairwise distinct.
proof fn lemma_builtin_names_distinct()
    ensures
        "print"@ != "sqrt"@,
        "print"@ != "sin"@,
        "print"@ != "cos"@,
        "print"@ != "tan"@,
        "print"@ != "exp"@,
        "print"@ != "log"@,
        "print"@ != "rand"@,
        "print"@ != "range"@,
        "sqrt"@ != "sin"@,
        "sqrt"@ != "cos"@,
        "sqrt"@ != "tan"@,
        "sqrt"@ != "exp"@,
        "sqrt"@ != "log"@,
        "sqrt"@ != "rand"@,
        "sqrt"@ != "range"@,
        "sin"@ != "cos"@,
        "sin"@ != "tan"@,
        "sin"@ != "exp"@,
        "sin"@ != "log"@,
        "sin"@ != "rand"@,
        "sin"@ != "range"@,
        "cos"@ != "tan"@,
        "cos"@ != "exp"@,
        "cos"@ != "log"@,
        "cos"@ != "rand"@,
        "cos"@ != "range"@,
        "tan"@ != "exp"@,
        "tan"@ != "log"@,
        "tan"@ != "rand"@,
        "tan"@ != "range"@,
        "exp"@ != "log"@,
        "exp"@ != "rand"@,
        "exp"@ != "range"@,
        "log"@ != "rand"@,
        "log"@ != "range"@,
        "rand"@ != "range"@,
        "Object"@ != "String"@,
        "Object"@ != "Number"@,
        "Object"@ != "Boolean"@,
        "String"@ != "Number"@,
        "String"@ != "Boolean"@,
        "Number"@ != "Boolean"@,
        "getType"@ != "length"@,
        "getType"@ != "toNumber"@,
        "getType"@ != "concat"@,
        "getType"@ != "toString"@,
        "length"@ != "toNumber"@,
        "length"@ != "concat"@,
        "length"@ != "toString"@,
        "toNumber"@ != "concat"@,
        "toNumber"@ != "toString"@,
        "concat"@ != "toString"@,
{
    reveal_strlit("print");
    reveal_strlit("sqrt");
    reveal_strlit("sin");
    reveal_strlit("cos");
    reveal_strlit("tan");
    reveal_strlit("exp");
    reveal_strlit("log");
    reveal_strlit("rand");
    reveal_strlit("range");
    reveal_strlit("Object");
    reveal_strlit("String");
    reveal_strlit("Number");
    reveal_strlit("Boolean");
    reveal_strlit("getType");
    reveal_strlit("length");
    reveal_strlit("toNumber");
    reveal_strlit("concat");
    reveal_strlit("toString");
    assert("print"@.len() != "sqrt"@.len());
    assert("print"@.len() != "sin"@.len());
    assert("print"@.len() != "cos"@.len());
    assert("print"@.len() != "tan"@.len());
    assert("print"@.len() != "exp"@.len());
    assert("print"@.len() != "log"@.len());
    assert("print"@.len() != "rand"@.len());
    assert("print"@[0] != "range"@[0]);
    assert("sqrt"@.len() != "sin"@.len());
    assert("sqrt"@.len() != "cos"@.len());
    assert("sqrt"@.len() != "tan"@.len());
    assert("sqrt"@.len() != "exp"@.len());
    assert("sqrt"@.len() != "log"@.len());
    assert("sqrt"@[0] != "rand"@[0]);
    assert("sqrt"@.len() != "range"@.len());
    assert("sin"@[0] != "cos"@[0]);
    assert("sin"@[0] != "tan"@[0]);
    assert("sin"@[0] != "exp"@[0]);
    assert("sin"@[0] != "log"@[0]);
    assert("sin"@.len() != "rand"@.len());
    assert("sin"@.len() != "range"@.len());
    assert("cos"@[0] != "tan"@[0]);
    assert("cos"@[0] != "exp"@[0]);
    assert("cos"@[0] != "log"@[0]);
    assert("cos"@.len() != "rand"@.len());
    assert("cos"@.len() != "range"@.len());
    assert("tan"@[0] != "exp"@[0]);
    assert("tan"@[0] != "log"@[0]);
    assert("tan"@.len() != "rand"@.len());
    assert("tan"@.len() != "range"@.len());
    assert("exp"@[0] != "log"@[0]);
    assert("exp"@.len() != "rand"@.len());
    assert("exp"@.len() != "range"@.len());
    assert("log"@.len() != "rand"@.len());
    assert("log"@.len() != "range"@.len());
    assert("rand"@.len() != "range"@.len());
    assert("Object"@[0] != "String"@[0]);
    assert("Object"@[0] != "Number"@[0]);
    assert("Object"@.len() != "Boolean"@.len());
    assert("String"@[0] != "Number"@[0]);
    assert("String"@.len() != "Boolean"@.len());
    assert("Number"@.len() != "Boolean"@.len());
    assert("getType"@.len() != "length"@.len());
    assert("getType"@.len() != "toNumber"@.len());
    assert("getType"@.len() != "concat"@.len());
    assert("getType"@.len() != "toString"@.len());
    assert("length"@.len() != "toNumber"@.len());
    assert("length"@[0] != "concat"@[0]);
    assert("length"@.len() != "toString"@.len());
    assert("toNumber"@.len() != "concat"@.len());
    assert("toNumber"@[2] != "toString"@[2]);
    assert("concat"@.len() != "toString"@.len());
}

fn func(params: Vec<Type>, ret: Type) -> (f: FuncInfo)
    ensures
        f.params == params,
        f.ret == ret,
{
    FuncInfo { params, ret }
}

fn no_span() -> (s: Span)
    ensures
        s == (Span { start: 0, end: 0, line: 0, col: 0 }),
{
    Span { start: 0, end: 0, line: 0, col: 0 }
}

/// A method table with the given signatures under distinct names.
fn methods_of(names: Vec<&str>, sigs: Vec<MethodInfo>) -> (t: Table<MethodInfo>)
    requires
        names@.len() == sigs@.len(),
    ensures
        forall|m: Seq<char>| #[trigger] t.has(m) == exists|i: int| 0 <= i < names@.len() && names@[i]@ == m,
        forall|i: int|
            0 <= i < names@.len() && (forall|j: int| i < j < names@.len() ==> names@[j]@ != names@[i]@)
                ==> #[trigger] opt_sig(t.spec_get(names@[i]@)) == Some(sigs@[i].sig()),
{
    let mut t: Table<MethodInfo> = Table::new();
    let mut sigs = sigs;
    let ghost sigs0 = sigs@;
    let n = names.len();
    let mut i: usize = 0;
    while i < n
        invariant
            i <= n,
            n == names@.len(),
            sigs0.len() == n,
            sigs@ == sigs0.skip(i as int),
            forall|m: Seq<char>| #[trigger] t.has(m) == exists|k: int| 0 <= k < i && names@[k]@ == m,
            forall|k: int|
                0 <= k < i && (forall|j: int| k < j < i ==> names@[j]@ != names@[k]@) ==> #[trigger] opt_sig(
                    t.spec_get(names@[k]@),
                ) == Some(sigs0[k].sig()),
        decreases n - i,
    {
        let m = sigs.remove(0);
        proof {
            assert(m == sigs0[i as int]);
            assert(sigs@ =~= sigs0.skip(i + 1));
        }
        let ghost tb = t;
        t.insert(names[i].to_owned(), m);
        proof {
            assert forall|q: Seq<char>| #[trigger] t.has(q) == exists|k: int| 0 <= k < i + 1 && names@[k]@ == q by {
                if q == names@[i as int]@ {
                    assert(names@[i as int]@ == q);
                }
                if exists|k: int| 0 <= k < i + 1 && names@[k]@ == q {
                    let k = choose|k: int| 0 <= k < i + 1 && names@[k]@ == q;
                    if k < i {
                        assert(tb.has(q));
                    }
                }
            }
            assert forall|k: int|
                0 <= k < i + 1 && (forall|j: int| k < j < i + 1 ==> names@[j]@ != names@[k]@) implies #[trigger] opt_sig(
                    t.spec_get(names@[k]@),
                ) == Some(sigs0[k].sig()) by {
                if k < i {
                    assert(names@[i as int]@ != names@[k]@);
                    assert(opt_sig(tb.spec_get(names@[k]@)) == Some(sigs0[k].sig()));
                }
            }
        }
        i += 1;
    }
    t
}

fn method(params: Vec<Type>, ret: Type) -> (m: MethodInfo)
    ensures
        m.params == params,
        m.ret == ret,
{
    MethodInfo { params, ret }
}

impl Checker {
    /// A checker that knows the built-in functions and classes, and nothing else.
    pub fn new() -> (c: Self)
        ensures
            c.errors@.len() == 0,
            c.protocols.entries().len() == 0,
            c.current_class is None,
            forall|n: Seq<char>| #[trigger] opt_fsig(c.functions.spec_get(n)) == builtin_fn(n),
            forall|n: Seq<char>| #[trigger] c.builtins().contains(n) == (builtin_fn(n) is Some),
            forall|n: Seq<char>| #[trigger] c.classes.has(n) == builtin_class(n),
            c.base_of("Object"@) is None,
            c.base_of("String"@) == Some("Object"@),
            c.base_of("Number"@) == Some("Object"@),
            c.base_of("Boolean"@) == Some("Object"@),
            forall|n: Seq<char>, m: Seq<char>|
                builtin_class(n) ==> #[trigger] opt_sig(c.classes.spec_get(n)->Some_0.methods.spec_get(m))
                    == builtin_method(n, m),
            forall|n: Seq<char>|
                builtin_class(n) ==> c.classes.spec_get(n)->Some_0.attributes.entries().len() == 0
                    && c.classes.spec_get(n)->Some_0.ctor_params@.len() == 0,
    {
        let mut c = Checker {
            errors: Vec::new(),
            classes: Table::new(),
            functions: Table::new(),
            protocols: Table::new(),
            current_class: None,
            builtin_names: Vec::new(),
        };
        c.register_builtins();
        c
    }

    fn register_builtins(&mut self)
        requires
            old(self).errors@.len() == 0,
            old(self).protocols.entries().len() == 0,
            old(self).current_class is None,
            old(self).functions.entries().len() == 0,
            old(self).classes.entries().len() == 0,
            old(self).builtin_names@.len() == 0,
        ensures
            final(self).errors@.len() == 0,
            final(self).protocols == old(self).protocols,
            final(self).current_class is None,
            forall|n: Seq<char>| #[trigger] opt_fsig(final(self).functions.spec_get(n)) == builtin_fn(n),
            forall|n: Seq<char>| #[trigger] final(self).builtins().contains(n) == (builtin_fn(n) is Some),
            forall|n: Seq<char>| #[trigger] final(self).classes.has(n) == builtin_class(n),
            final(self).base_of("Object"@) is None,
            final(self).base_of("String"@) == Some("Object"@),
            final(self).base_of("Number"@) == Some("Object"@),
            final(self).base_of("Boolean"@) == Some("Object"@),
            forall|n: Seq<char>, m: Seq<char>|
                builtin_class(n) ==> #[trigger] opt_sig(final(self).classes.spec_get(n)->Some_0.methods.spec_get(m))
                    == builtin_method(n, m),
            forall|n: Seq<char>|
                builtin_class(n) ==> final(self).classes.spec_get(n)->Some_0.attributes.entries().len() == 0
                    && final(self).classes.spec_get(n)->Some_0.ctor_params@.len() == 0,
    {
        proof {
            lemma_builtin_names_distinct();
            reveal_strlit("print");
            reveal_strlit("sqrt");
            reveal_strlit("sin");
            reveal_strlit("cos");
            reveal_strlit("tan");
            reveal_strlit("exp");
            reveal_strlit("log");
            reveal_strlit("rand");
            reveal_strlit("range");
            reveal_strlit("Object");
            reveal_strlit("String");
            reveal_strlit("Number");
            reveal_strlit("Boolean");
            reveal_strlit("getType");
            reveal_strlit("length");
            reveal_strlit("toNumber");
            reveal_strlit("concat");
            reveal_strlit("toString");
        }
        let names = vec!["print", "sqrt", "sin", "cos", "tan", "exp", "log", "rand", "range"];
        let mut sigs: Vec<FuncInfo> = vec![
            func(vec![Type::Object], Type::Object),
            func(vec![Type::Number], Type::Number),
            func(vec![Type::Number], Type::Number),
            func(vec![Type::Number], Type::Number),
            func(vec![Type::Number], Type::Number),
            func(vec![Type::Number], Type::Number),
            func(vec![Type::Number, Type::Number], Type::Number),
            func(vec![], Type::Number),
            func(vec![Type::Number], Type::Array(Box::new(Type::Number))),
        ];
        let ghost sigs0 = sigs@;
        proof {
            assert(models(sigs0[0].params@) =~= seq![TypeV::Object]);
            assert(models(sigs0[1].params@) =~= seq![TypeV::Number]);
            assert(models(sigs0[2].params@) =~= seq![TypeV::Number]);
            assert(models(sigs0[3].params@) =~= seq![TypeV::Number]);
            assert(models(sigs0[4].params@) =~= seq![TypeV::Number]);
            assert(models(sigs0[5].params@) =~= seq![TypeV::Number]);
            assert(models(sigs0[6].params@) =~= seq![TypeV::Number, TypeV::Number]);
            assert(models(sigs0[7].params@) =~= Seq::<TypeV>::empty());
            assert(models(sigs0[8].params@) =~= seq![TypeV::Number]);
            assert(names@[0]@ == "print"@);
            assert(names@[1]@ == "sqrt"@);
            assert(names@[2]@ == "sin"@);
            assert(names@[3]@ == "cos"@);
            assert(names@[4]@ == "tan"@);
            assert(names@[5]@ == "exp"@);
            assert(names@[6]@ == "log"@);
            assert(names@[7]@ == "rand"@);
            assert(names@[8]@ == "range"@);
            assert(Some(sigs0[0].sig()) == builtin_fn(names@[0]@));
            assert("sqrt"@[0] != "print"@[0]);
            assert("sqrt"@ != "print"@);
            assert(builtin_fn("sqrt"@) == Some((seq![TypeV::Number], TypeV::Number)));
            assert(sigs0[1].sig() == (seq![TypeV::Number], TypeV::Number));
            assert(Some(sigs0[1].sig()) == builtin_fn(names@[1]@));
            assert("sin"@[0] != "print"@[0]);
            assert("sin"@ != "print"@);
            assert(builtin_fn("sin"@) == Some((seq![TypeV::Number], TypeV::Number)));
            assert(sigs0[2].sig() == (seq![TypeV::Number], TypeV::Number));
            assert(Some(sigs0[2].sig()) == builtin_fn(names@[2]@));
            assert(Some(sigs0[3].sig()) == builtin_fn(names@[3]@));
            assert(Some(sigs0[4].sig()) == builtin_fn(names@[4]@));
            assert(Some(sigs0[5].sig()) == builtin_fn(names@[5]@));
            assert(Some(sigs0[6].sig()) == builtin_fn(names@[6]@));
            assert(Some(sigs0[7].sig()) == builtin_fn(names@[7]@));
            assert(Some(sigs0[8].sig()) == builtin_fn(names@[8]@));
            assert forall|k: int| 0 <= k < 9 implies Some(#[trigger] sigs0[k].sig()) == builtin_fn(names@[k]@) by {
                if k == 0 {} else if k == 1 {} else if k == 2 {} else if k == 3 {} else if k == 4 {}
                else if k == 5 {} else if k == 6 {} else if k == 7 {} else {}
            }
        }
        let mut i: usize = 0;
        while i < 9
            invariant
                i <= 9,
                names@.len() == 9,
                sigs0.len() == 9,
                sigs@ == sigs0.skip(i as int),
                forall|k: int| 0 <= k < 9 ==> Some(#[trigger] sigs0[k].sig()) == builtin_fn(names@[k]@),
                self.errors@.len() == 0,
                self.protocols == old(self).protocols,
                self.current_class is None,
                self.classes == old(self).classes,
                self.builtins() == names@.take(i as int).map_values(|s: &str| s@),
                forall|n: Seq<char>| #[trigger] opt_fsig(self.functions.spec_get(n)) == if exists|k: int| 0 <= k < i && names@[k]@ == n {
                    builtin_fn(n)
                } else {
                    None
                },
            decreases 9 - i,
        {
            let f = sigs.remove(0);
            proof {
                assert(f == sigs0[i as int]);
                assert(sigs@ =~= sigs0.skip(i + 1));
                assert(opt_fsig(Some(f)) == builtin_fn(names@[i as int]@));
            }
            let ghost fb = self.functions;
            let ghost bb = self.builtins();
            self.functions.insert(names[i].to_owned(), f);
            self.builtin_names.push(names[i].to_owned());
            proof {
                assert(self.builtins() =~= bb.push(names@[i as int]@));
                assert(names@.take(i + 1).map_values(|s: &str| s@) =~= names@.take(i as int).map_values(|s: &str| s@).push(names@[i as int]@));
                assert forall|n: Seq<char>| #[trigger] opt_fsig(self.functions.spec_get(n)) == if exists|k: int| 0 <= k < i + 1 && names@[k]@ == n {
                    builtin_fn(n)
                } else {
                    None
                } by {
                    if n == names@[i as int]@ {
                        assert(names@[i as int]@ == n);
                    } else {
                        assert(opt_fsig(self.functions.spec_get(n)) == opt_fsig(fb.spec_get(n)));
                        if exists|k: int| 0 <= k < i + 1 && names@[k]@ == n {
                            let k = choose|k: int| 0 <= k < i + 1 && names@[k]@ == n;
                            assert(k < i);
                        }
                    }
                }
            }
            i += 1;
        }
        proof {
            assert forall|n: Seq<char>| #[trigger] opt_fsig(self.functions.spec_get(n)) == builtin_fn(n) by {
                if builtin_fn(n) is Some {
                    if n == "print"@ { assert(names@[0]@ == n); }
                    else if n == "sqrt"@ { assert(names@[1]@ == n); }
                    else if n == "sin"@ { assert(names@[2]@ == n); }
                    else if n == "cos"@ { assert(names@[3]@ == n); }
                    else if n == "tan"@ { assert(names@[4]@ == n); }
                    else if n == "exp"@ { assert(names@[5]@ == n); }
                    else if n == "log"@ { assert(names@[6]@ == n); }
                    else if n == "rand"@ { assert(names@[7]@ == n); }
                    else { assert(names@[8]@ == n); }
                }
            }
            let bs = names@.take(9).map_values(|s: &str| s@);
            assert forall|n: Seq<char>| #[trigger] self.builtins().contains(n) == (builtin_fn(n) is Some) by {
                if builtin_fn(n) is Some {
                    if n == "print"@ { assert(bs[0] == n); }
                    else if n == "sqrt"@ { assert(bs[1] == n); }
                    else if n == "sin"@ { assert(bs[2] == n); }
                    else if n == "cos"@ { assert(bs[3] == n); }
                    else if n == "tan"@ { assert(bs[4] == n); }
                    else if n == "exp"@ { assert(bs[5] == n); }
                    else if n == "log"@ { assert(bs[6] == n); }
                    else if n == "rand"@ { assert(bs[7] == n); }
                    else { assert(bs[8] == n); }
                }
                if self.builtins().contains(n) {
                    let k = choose|k: int| 0 <= k < bs.len() && bs[k] == n;
                    assert(bs[k] == names@[k]@);
                }
            }
        }

        let on = vec!["getType"];
        let os = vec![method(vec![], Type::Str)];
        let ghost (onv, osv) = (on@, os@);
        let obj_methods = methods_of(on, os);
        let sn = vec!["length", "toNumber", "concat"];
        let ss = vec![method(vec![], Type::Number), method(vec![], Type::Number), method(vec![Type::Str], Type::Str)];
        let ghost (snv, ssv) = (sn@, ss@);
        let str_methods = methods_of(sn, ss);
        let nn = vec!["toString"];
        let ns = vec![method(vec![], Type::Str)];
        let ghost (nnv, nsv) = (nn@, ns@);
        let num_methods = methods_of(nn, ns);
        let bool_methods: Table<MethodInfo> = Table::new();
        proof {
            assert(models(Seq::<Type>::empty()) =~= Seq::<TypeV>::empty());
            assert(models(seq![Type::Str]) =~= seq![TypeV::Str]);
            assert(onv[0]@ == "getType"@);
            assert(snv[0]@ == "length"@);
            assert(snv[1]@ == "toNumber"@);
            assert(snv[2]@ == "concat"@);
            assert(nnv[0]@ == "toString"@);
            assert(osv[0].sig() == (Seq::<TypeV>::empty(), TypeV::Str));
            assert(ssv[0].sig() == (Seq::<TypeV>::empty(), TypeV::Number));
            assert(ssv[1].sig() == (Seq::<TypeV>::empty(), TypeV::Number));
            assert(ssv[2].sig() == (seq![TypeV::Str], TypeV::Str));
            assert(nsv[0].sig() == (Seq::<TypeV>::empty(), TypeV::Str));
            assert forall|m: Seq<char>| #[trigger] opt_sig(obj_methods.spec_get(m)) == builtin_method("Object"@, m) by {
                if m == "getType"@ {
                    assert(opt_sig(obj_methods.spec_get(onv[0]@)) == Some(osv[0].sig()));
                } else {
                    assert(onv.len() == 1);
                    assert(!obj_methods.has(m));
                }
            }
            assert forall|m: Seq<char>| #[trigger] opt_sig(str_methods.spec_get(m)) == builtin_method("String"@, m) by {
                if m == "length"@ {
                    assert(opt_sig(str_methods.spec_get(snv[0]@)) == Some(ssv[0].sig()));
                } else if m == "toNumber"@ {
                    assert(opt_sig(str_methods.spec_get(snv[1]@)) == Some(ssv[1].sig()));
                } else if m == "concat"@ {
                    assert(opt_sig(str_methods.spec_get(snv[2]@)) == Some(ssv[2].sig()));
                } else {
                    assert(snv.len() == 3);
                    assert(!str_methods.has(m));
                }
            }
            assert forall|m: Seq<char>| #[trigger] opt_sig(num_methods.spec_get(m)) == builtin_method("Number"@, m) by {
                if m == "toString"@ {
                    assert(opt_sig(num_methods.spec_get(nnv[0]@)) == Some(nsv[0].sig()));
                } else {
                    assert(nnv.len() == 1);
                    assert(!num_methods.has(m));
                }
            }
        }
        let ghost c0 = self.classes;
        self.classes.insert(
            "Object".to_owned(),
            ClassInfo {
                base: None,
                ctor_params: Vec::new(),
                attributes: Table::new(),
                methods: obj_methods,
                span: no_span(),
            },
        );
        self.classes.insert(
            "String".to_owned(),
            ClassInfo {
                base: Some("Object".to_owned()),
                ctor_params: Vec::new(),
                attributes: Table::new(),
                methods: str_methods,
                span: no_span(),
            },
        );
        self.classes.insert(
            "Number".to_owned(),
            ClassInfo {
                base: Some("Object".to_owned()),
                ctor_params: Vec::new(),
                attributes: Table::new(),
                methods: num_methods,
                span: no_span(),
            },
        );
        self.classes.insert(
            "Boolean".to_owned(),
            ClassInfo {
                base: Some("Object".to_owned()),
                ctor_params: Vec::new(),
                attributes: Table::new(),
                methods: bool_methods,
                span: no_span(),
            },
        );
        proof {
            assert forall|n: Seq<char>| #[trigger] self.classes.has(n) == builtin_class(n) by {
                assert(!c0.has(n));
            }
        }
    }
}

} // verus!
