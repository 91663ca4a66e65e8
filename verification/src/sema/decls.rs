//! The first pass of the checker: the declarations of a program go into
//! its tables, and duplicate or circular declarations are reported.
use vstd::prelude::*;
use crate::ast::{TypeExpr, Param, ProtocolDecl, ProtocolMethod, ClassDecl, ClassMember, FunctionDecl, MacroDecl, Program};
use crate::lexer::Span;
use super::builtins::{opt_fsig, builtin_class, builtin_fn};
use super::checker::{Checker, FuncInfo, MethodInfo, ProtocolInfo, ClassInfo, resolve, opt_sig, opt_view, opt_model, views, cycle_errors};
use super::error::{SemanticError, ErrV, err_views};
use super::table::Table;
use super::types::{Type, TypeV, models};

verus! {

/// The type an optional annotation denotes, `d` without one.
pub open spec fn ann(te: Option<TypeExpr>, d: TypeV) -> TypeV {
    match te {
        Some(t) => resolve(t),
        None => d,
    }
}

/// Types of the parameters, Unknown where not annotated.
pub open spec fn param_models(ps: Seq<Param>) -> Seq<TypeV> {
    ps.map_values(|p: Param| ann(p.type_ann, TypeV::Unknown))
}

/// The signature of the last method named `m` among `ms`.
pub open spec fn last_pm(ms: Seq<ProtocolMethod>, m: Seq<char>) -> Option<(Seq<TypeV>, TypeV)>
    decreases ms.len(),
{
    if ms.len() == 0 {
        None
    } else if ms.last().name@ == m {
        Some((param_models(ms.last().params@), ann(ms.last().return_type, TypeV::Unknown)))
    } else {
        last_pm(ms.drop_last(), m)
    }
}

/// The first protocol named `n` among `ds`.
pub open spec fn first_proto(ds: Seq<ProtocolDecl>, n: Seq<char>) -> Option<ProtocolDecl>
    decreases ds.len(),
{
    if ds.len() == 0 {
        None
    } else {
        match first_proto(ds.drop_last(), n) {
            Some(d) => Some(d),
            None => if ds.last().name@ == n {
                Some(ds.last())
            } else {
                None
            },
        }
    }
}

/// Protocol `info` is what declaration `d` gives, as far as method `m` goes.
pub open spec fn registered_as(info: ProtocolInfo, d: ProtocolDecl, m: Seq<char>) -> bool {
    views(info.extends@) == views(d.extends@) && opt_sig(info.methods.spec_get(m)) == last_pm(d.methods@, m)
}

/// The first class named `n` among `ds`.
pub open spec fn first_class(ds: Seq<ClassDecl>, n: Seq<char>) -> Option<ClassDecl>
    decreases ds.len(),
{
    if ds.len() == 0 {
        None
    } else {
        match first_class(ds.drop_last(), n) {
            Some(d) => Some(d),
            None => if ds.last().name@ == n {
                Some(ds.last())
            } else {
                None
            },
        }
    }
}

/// The last class named `n` among `ds`.
pub open spec fn last_class(ds: Seq<ClassDecl>, n: Seq<char>) -> Option<ClassDecl>
    decreases ds.len(),
{
    if ds.len() == 0 {
        None
    } else if ds.last().name@ == n {
        Some(ds.last())
    } else {
        last_class(ds.drop_last(), n)
    }
}

/// Errors for the classes of `ds` whose name is taken, already or by an earlier one of `ds`.
pub open spec fn class_dup_errors(taken: spec_fn(Seq<char>) -> bool, ds: Seq<ClassDecl>) -> Seq<ErrV>
    decreases ds.len(),
{
    if ds.len() == 0 {
        Seq::empty()
    } else {
        let d = ds.last();
        class_dup_errors(taken, ds.drop_last()) + if taken(d.name@) || first_class(ds.drop_last(), d.name@) is Some {
            seq![ErrV::DuplicateDeclaration { name: d.name@, span: d.span }]
        } else {
            Seq::empty()
        }
    }
}

/// `info` is the entry that declaration `d` first makes: its base (Object when
/// none is named), constructor parameters and position, with no members yet.
pub open spec fn shell_of(info: ClassInfo, d: ClassDecl) -> bool {
    &&& opt_view(info.base) == Some(
        match d.base {
            Some(b) => b@,
            None => "Object"@,
        },
    )
    &&& models(info.ctor_params@) == param_models(d.ctor_params@)
    &&& info.span == d.span
    &&& info.attributes.entries().len() == 0
    &&& info.methods.entries().len() == 0
}

/// `info` has the base (Object when none is named), constructor parameters
/// and position that `d` declares.
pub open spec fn shell_fields(info: ClassInfo, d: ClassDecl) -> bool {
    &&& opt_view(info.base) == Some(
        match d.base {
            Some(b) => b@,
            None => "Object"@,
        },
    )
    &&& models(info.ctor_params@) == param_models(d.ctor_params@)
    &&& info.span == d.span
}

/// Some member of `ms` is an attribute named `a`.
pub open spec fn member_attr(ms: Seq<ClassMember>, a: Seq<char>) -> bool {
    exists|i: int| 0 <= i < ms.len() && (#[trigger] ms[i] matches ClassMember::Attribute { name, .. } && name@ == a)
}

/// The signature of the last method named `m` among `ms`.
pub open spec fn member_method(ms: Seq<ClassMember>, m: Seq<char>) -> Option<(Seq<TypeV>, TypeV)>
    decreases ms.len(),
{
    if ms.len() == 0 {
        None
    } else {
        match ms.last() {
            ClassMember::Method { name, params, return_type, .. } => if name@ == m {
                Some((param_models(params@), ann(return_type, TypeV::Unknown)))
            } else {
                member_method(ms.drop_last(), m)
            },
            ClassMember::Attribute { .. } => member_method(ms.drop_last(), m),
        }
    }
}

/// The members of `info` are those that `ms` declares, attributes of unknown type.
pub open spec fn members_from(info: ClassInfo, ms: Seq<ClassMember>) -> bool {
    &&& forall|a: Seq<char>| #[trigger] opt_model(info.attributes.spec_get(a)) == if member_attr(ms, a) {
        Some(TypeV::Unknown)
    } else {
        None
    }
    &&& forall|m: Seq<char>| #[trigger] opt_sig(info.methods.spec_get(m)) == member_method(ms, m)
}

/// Same base, constructor parameters and position.
pub open spec fn same_shell(a: ClassInfo, b: ClassInfo) -> bool {
    a.base == b.base && a.ctor_params == b.ctor_params && a.span == b.span
}

/// Some function of `ds` is named `n`.
pub open spec fn declares_fn(ds: Seq<FunctionDecl>, n: Seq<char>) -> bool {
    exists|j: int| 0 <= j < ds.len() && (#[trigger] ds[j]).name@ == n
}

/// The signature a function declaration gives.
pub open spec fn fn_sig(d: FunctionDecl) -> (Seq<TypeV>, TypeV) {
    (param_models(d.params@), ann(d.return_type, TypeV::Unknown))
}

/// A function declaration is reported when its name is taken, already or by an
/// earlier declaration, unless the name is a built-in's.
pub open spec fn fn_dup_errors(
    taken: spec_fn(Seq<char>) -> bool,
    builtin: spec_fn(Seq<char>) -> bool,
    ds: Seq<FunctionDecl>,
) -> Seq<ErrV>
    decreases ds.len(),
{
    if ds.len() == 0 {
        Seq::empty()
    } else {
        let d = ds.last();
        fn_dup_errors(taken, builtin, ds.drop_last()) + if (taken(d.name@) || declares_fn(ds.drop_last(), d.name@))
            && !builtin(d.name@) {
            seq![ErrV::DuplicateDeclaration { name: d.name@, span: d.span }]
        } else {
            Seq::empty()
        }
    }
}

/// The signature under `n` once the declarations `ds` are registered over `fs`.
pub open spec fn fn_after(fs: Table<FuncInfo>, builtins: Seq<Seq<char>>, ds: Seq<FunctionDecl>, n: Seq<char>) -> Option<
    (Seq<TypeV>, TypeV),
>
    decreases ds.len(),
{
    if ds.len() == 0 {
        opt_fsig(fs.spec_get(n))
    } else {
        let d = ds.last();
        if d.name@ == n && !((fs.has(n) || declares_fn(ds.drop_last(), n)) && !builtins.contains(n)) {
            Some(fn_sig(d))
        } else {
            fn_after(fs, builtins, ds.drop_last(), n)
        }
    }
}

/// The signature under `n` once the macros `ms` are registered over `prev`:
/// the last macro named `n` takes Objects and gives an Object.
pub open spec fn macro_after(ms: Seq<MacroDecl>, n: Seq<char>, prev: Option<(Seq<TypeV>, TypeV)>) -> Option<
    (Seq<TypeV>, TypeV),
>
    decreases ms.len(),
{
    if ms.len() == 0 {
        prev
    } else if ms.last().name@ == n {
        Some((Seq::new(ms.last().params@.len(), |i: int| TypeV::Object), TypeV::Object))
    } else {
        macro_after(ms.drop_last(), n, prev)
    }
}

/// The signature `n` has once functions `ds` are declared over the built-ins.
pub open spec fn fn_over_builtins(ds: Seq<FunctionDecl>, n: Seq<char>) -> Option<(Seq<TypeV>, TypeV)>
    decreases ds.len(),
{
    if ds.len() == 0 {
        builtin_fn(n)
    } else {
        let d = ds.last();
        if d.name@ == n && !((builtin_fn(n) is Some || declares_fn(ds.drop_last(), n)) && !(builtin_fn(n) is Some)) {
            Some(fn_sig(d))
        } else {
            fn_over_builtins(ds.drop_last(), n)
        }
    }
}

/// The signature `n` has in a program: its macros over its functions over the
/// built-ins.
pub open spec fn program_sig(program: Program, n: Seq<char>) -> Option<(Seq<TypeV>, TypeV)> {
    macro_after(program.macros@, n, fn_over_builtins(program.functions@, n))
}

/// Declaring functions over a table of just the built-ins gives their signatures.
pub proof fn lemma_fn_after_builtins(fs: Table<FuncInfo>, b: Seq<Seq<char>>, ds: Seq<FunctionDecl>, n: Seq<char>)
    requires
        forall|m: Seq<char>| #[trigger] opt_fsig(fs.spec_get(m)) == builtin_fn(m),
        forall|m: Seq<char>| #[trigger] b.contains(m) == (builtin_fn(m) is Some),
    ensures
        fn_after(fs, b, ds, n) == fn_over_builtins(ds, n),
    decreases ds.len(),
{
    assert(opt_fsig(fs.spec_get(n)) == builtin_fn(n));
    assert(fs.has(n) == (fs.spec_get(n) is Some));
    assert(b.contains(n) == (builtin_fn(n) is Some));
    if ds.len() > 0 {
        lemma_fn_after_builtins(fs, b, ds.drop_last(), n);
    }
}

/// The duplicate declarations a program's classes and functions hold, in a
/// checker that knows only the built-ins.
pub open spec fn duplicate_errors(program: Program) -> Seq<ErrV> {
    class_dup_errors(|c: Seq<char>| builtin_class(c), program.classes@) + fn_dup_errors(
        |n: Seq<char>| builtin_fn(n) is Some,
        |n: Seq<char>| builtin_fn(n) is Some,
        program.functions@,
    )
}

impl Checker {
    /// The type an optional annotation denotes, `d` without one.
    pub fn resolve_opt(&mut self, te: &Option<TypeExpr>, d: Type) -> (r: Type)
        ensures
            r.model() == ann(*te, d.model()),
            *final(self) == *old(self),
    {
        match te {
            Some(t) => self.resolve_type(t),
            None => d,
        }
    }

    /// Types of the parameters, Unknown where not annotated.
    pub fn param_types(&mut self, ps: &Vec<Param>) -> (r: Vec<Type>)
        ensures
            models(r@) == param_models(ps@),
            *final(self) == *old(self),
    {
        let mut out: Vec<Type> = Vec::new();
        let mut i: usize = 0;
        while i < ps.len()
            invariant
                i <= ps@.len(),
                *self == *old(self),
                models(out@) == param_models(ps@.take(i as int)),
            decreases ps.len() - i,
        {
            let t = self.resolve_opt(&ps[i].type_ann, Type::Unknown);
            let ghost before = out@;
            out.push(t);
            proof {
                assert(out@ =~= before.push(t));
                assert(models(out@) =~= models(before).push(t.model()));
                assert(ps@.take(i + 1) =~= ps@.take(i as int).push(ps@[i as int]));
                assert(param_models(ps@.take(i + 1)) =~= param_models(ps@.take(i as int)).push(
                    ann(ps@[i as int].type_ann, TypeV::Unknown),
                ));
            }
            i += 1;
        }
        proof {
            assert(ps@.take(i as int) =~= ps@);
        }
        out
    }

    /// The signatures that a protocol's own method list gives.
    fn protocol_method_table(&mut self, ms: &Vec<ProtocolMethod>) -> (t: Table<MethodInfo>)
        ensures
            forall|m: Seq<char>| #[trigger] opt_sig(t.spec_get(m)) == last_pm(ms@, m),
            *final(self) == *old(self),
    {
        let mut t: Table<MethodInfo> = Table::new();
        let mut i: usize = 0;
        while i < ms.len()
            invariant
                i <= ms@.len(),
                *self == *old(self),
                forall|m: Seq<char>| #[trigger] opt_sig(t.spec_get(m)) == last_pm(ms@.take(i as int), m),
            decreases ms.len() - i,
        {
            let pm = &ms[i];
            let params = self.param_types(&pm.params);
            let ret = self.resolve_opt(&pm.return_type, Type::Unknown);
            let ghost tb = t;
            t.insert(pm.name.clone(), MethodInfo { params, ret });
            proof {
                let pre = ms@.take(i + 1);
                assert(pre.drop_last() =~= ms@.take(i as int));
                assert(pre.last() == ms@[i as int]);
                assert forall|m: Seq<char>| #[trigger] opt_sig(t.spec_get(m)) == last_pm(pre, m) by {
                    if m != pm.name@ {
                        assert(opt_sig(t.spec_get(m)) == opt_sig(tb.spec_get(m)));
                    }
                }
            }
            i += 1;
        }
        proof {
            assert(ms@.take(i as int) =~= ms@);
        }
        t
    }

    /// Registers each class whose name is new, without members; reports the others.
    pub fn collect_class_shells(&mut self, decls: &Vec<ClassDecl>)
        ensures
            final(self).protocols == old(self).protocols,
            final(self).functions == old(self).functions,
            final(self).current_class == old(self).current_class,
            final(self).builtin_names == old(self).builtin_names,
            err_views(final(self).errors@) == err_views(old(self).errors@) + class_dup_errors(|c: Seq<char>| old(self).classes.has(c), decls@),
            forall|c: Seq<char>|
                #[trigger] final(self).classes.has(c) == (old(self).classes.has(c) || first_class(decls@, c) is Some),
            forall|c: Seq<char>|
                old(self).classes.has(c) ==> #[trigger] final(self).classes.spec_get(c) == old(self).classes.spec_get(c),
            forall|c: Seq<char>|
                !old(self).classes.has(c) && first_class(decls@, c) is Some ==> #[trigger] shell_of(
                    final(self).classes.spec_get(c)->Some_0,
                    first_class(decls@, c)->Some_0,
                ),
    {
        let ghost cls0 = self.classes;
        let mut i: usize = 0;
        while i < decls.len()
            invariant
                i <= decls@.len(),
                cls0 == old(self).classes,
                self.protocols == old(self).protocols,
                self.functions == old(self).functions,
                self.current_class == old(self).current_class,
                self.builtin_names == old(self).builtin_names,
                err_views(self.errors@) == err_views(old(self).errors@) + class_dup_errors(|c: Seq<char>| cls0.has(c), decls@.take(i as int)),
                forall|c: Seq<char>|
                    #[trigger] self.classes.has(c) == (cls0.has(c) || first_class(decls@.take(i as int), c) is Some),
                forall|c: Seq<char>| cls0.has(c) ==> #[trigger] self.classes.spec_get(c) == cls0.spec_get(c),
                forall|c: Seq<char>|
                    !cls0.has(c) && first_class(decls@.take(i as int), c) is Some ==> #[trigger] shell_of(
                        self.classes.spec_get(c)->Some_0,
                        first_class(decls@.take(i as int), c)->Some_0,
                    ),
            decreases decls.len() - i,
        {
            let class = &decls[i];
            let ghost pre = decls@.take(i + 1);
            let ghost prev = decls@.take(i as int);
            proof {
                assert(pre.drop_last() =~= prev);
                assert(pre.last() == decls@[i as int]);
            }
            if self.classes.contains_key(class.name.as_str()) {
                self.report(SemanticError::DuplicateDeclaration { name: class.name.clone(), span: class.span });
                proof {
                    assert(err_views(self.errors@) =~= err_views(old(self).errors@) + class_dup_errors(|c: Seq<char>| cls0.has(c), pre));
                    assert forall|c: Seq<char>|
                        !cls0.has(c) && first_class(pre, c) is Some implies #[trigger] shell_of(
                            self.classes.spec_get(c)->Some_0,
                            first_class(pre, c)->Some_0,
                        ) by {
                        assert(first_class(prev, c) is Some);
                    }
                }
            } else {
                let ctor_params = self.param_types(&class.ctor_params);
                let base = match &class.base {
                    Some(b) => Some(b.clone()),
                    None => Some("Object".to_owned()),
                };
                let ghost cb = self.classes;
                let info = ClassInfo {
                    base,
                    ctor_params,
                    attributes: Table::new(),
                    methods: Table::new(),
                    span: class.span,
                };
                let ghost gi = info;
                self.classes.insert(class.name.clone(), info);
                proof {
                    assert(err_views(self.errors@) =~= err_views(old(self).errors@) + class_dup_errors(|c: Seq<char>| cls0.has(c), pre));
                    assert(shell_of(gi, *class));
                    assert forall|c: Seq<char>|
                        #[trigger] self.classes.has(c) == (cls0.has(c) || first_class(pre, c) is Some) by {
                        if c != class.name@ {
                            assert(self.classes.has(c) == cb.has(c));
                        }
                    }
                    assert forall|c: Seq<char>| cls0.has(c) implies #[trigger] self.classes.spec_get(c) == cls0.spec_get(c) by {
                        assert(c != class.name@);
                    }
                    assert forall|c: Seq<char>|
                        !cls0.has(c) && first_class(pre, c) is Some implies #[trigger] shell_of(
                            self.classes.spec_get(c)->Some_0,
                            first_class(pre, c)->Some_0,
                        ) by {
                        if c != class.name@ {
                            assert(self.classes.spec_get(c) == cb.spec_get(c));
                        } else {
                            assert(first_class(prev, c) is None);
                        }
                    }
                }
            }
            i += 1;
        }
        proof {
            assert(decls@.take(i as int) =~= decls@);
        }
    }

    /// The attribute and method tables that a list of members declares.
    fn member_tables(&mut self, members: &Vec<ClassMember>) -> (r: (Table<Type>, Table<MethodInfo>))
        ensures
            *final(self) == *old(self),
            forall|a: Seq<char>| #[trigger] opt_model(r.0.spec_get(a)) == if member_attr(members@, a) {
                Some(TypeV::Unknown)
            } else {
                None
            },
            forall|m: Seq<char>| #[trigger] opt_sig(r.1.spec_get(m)) == member_method(members@, m),
    {
        let mut attrs: Table<Type> = Table::new();
        let mut methods: Table<MethodInfo> = Table::new();
        let mut i: usize = 0;
        while i < members.len()
            invariant
                i <= members@.len(),
                *self == *old(self),
                forall|a: Seq<char>| #[trigger] opt_model(attrs.spec_get(a)) == if member_attr(members@.take(i as int), a) {
                    Some(TypeV::Unknown)
                } else {
                    None
                },
                forall|m: Seq<char>| #[trigger] opt_sig(methods.spec_get(m)) == member_method(members@.take(i as int), m),
            decreases members.len() - i,
        {
            let ghost pre = members@.take(i + 1);
            let ghost prev = members@.take(i as int);
            proof {
                assert(pre.drop_last() =~= prev);
                assert(pre.last() == members@[i as int]);
            }
            let ghost ab = attrs;
            let ghost mb = methods;
            match &members[i] {
                ClassMember::Attribute { name, .. } => {
                    attrs.insert(name.clone(), Type::Unknown);
                    proof {
                        assert forall|a: Seq<char>| #[trigger] opt_model(attrs.spec_get(a)) == if member_attr(pre, a) {
                            Some(TypeV::Unknown)
                        } else {
                            None
                        } by {
                            if a == name@ {
                                assert(pre[i as int] matches ClassMember::Attribute { name: nm, .. } && nm@ == a);
                            } else {
                                assert(opt_model(attrs.spec_get(a)) == opt_model(ab.spec_get(a)));
                                if member_attr(pre, a) {
                                    let j = choose|j: int| 0 <= j < pre.len() && (#[trigger] pre[j] matches ClassMember::Attribute { name, .. } && name@ == a);
                                    assert(prev[j] == pre[j]);
                                }
                                if member_attr(prev, a) {
                                    let j = choose|j: int| 0 <= j < prev.len() && (#[trigger] prev[j] matches ClassMember::Attribute { name, .. } && name@ == a);
                                    assert(prev[j] == pre[j]);
                                }
                            }
                        }
                    }
                },
                ClassMember::Method { name, params, return_type, .. } => {
                    let ps = self.param_types(params);
                    let ret = self.resolve_opt(return_type, Type::Unknown);
                    methods.insert(name.clone(), MethodInfo { params: ps, ret });
                    proof {
                        assert forall|a: Seq<char>| #[trigger] opt_model(attrs.spec_get(a)) == if member_attr(pre, a) {
                            Some(TypeV::Unknown)
                        } else {
                            None
                        } by {
                            if member_attr(pre, a) {
                                let j = choose|j: int| 0 <= j < pre.len() && (#[trigger] pre[j] matches ClassMember::Attribute { name, .. } && name@ == a);
                                assert(prev[j] == pre[j]);
                            }
                            if member_attr(prev, a) {
                                let j = choose|j: int| 0 <= j < prev.len() && (#[trigger] prev[j] matches ClassMember::Attribute { name, .. } && name@ == a);
                                assert(prev[j] == pre[j]);
                            }
                        }
                        assert forall|m: Seq<char>| #[trigger] opt_sig(methods.spec_get(m)) == member_method(pre, m) by {
                            if m != name@ {
                                assert(opt_sig(methods.spec_get(m)) == opt_sig(mb.spec_get(m)));
                            }
                        }
                    }
                },
            }
            i += 1;
        }
        proof {
            assert(members@.take(i as int) =~= members@);
        }
        (attrs, methods)
    }

    /// Gives each declared class the members of its last declaration.
    pub fn fill_class_members(&mut self, decls: &Vec<ClassDecl>)
        ensures
            final(self).protocols == old(self).protocols,
            final(self).functions == old(self).functions,
            final(self).errors == old(self).errors,
            final(self).current_class == old(self).current_class,
            final(self).builtin_names == old(self).builtin_names,
            forall|c: Seq<char>| #[trigger] final(self).classes.has(c) == old(self).classes.has(c),
            forall|c: Seq<char>|
                old(self).classes.has(c) ==> same_shell(
                    #[trigger] final(self).classes.spec_get(c)->Some_0,
                    old(self).classes.spec_get(c)->Some_0,
                ),
            forall|c: Seq<char>|
                old(self).classes.has(c) && last_class(decls@, c) is Some ==> #[trigger] members_from(
                    final(self).classes.spec_get(c)->Some_0,
                    last_class(decls@, c)->Some_0.members@,
                ),
            forall|c: Seq<char>|
                last_class(decls@, c) is None ==> #[trigger] final(self).classes.spec_get(c) == old(self).classes.spec_get(c),
    {
        let mut i: usize = 0;
        while i < decls.len()
            invariant
                i <= decls@.len(),
                self.protocols == old(self).protocols,
                self.functions == old(self).functions,
                self.errors == old(self).errors,
                self.current_class == old(self).current_class,
                self.builtin_names == old(self).builtin_names,
                forall|c: Seq<char>| #[trigger] self.classes.has(c) == old(self).classes.has(c),
                forall|c: Seq<char>|
                    old(self).classes.has(c) ==> same_shell(
                        #[trigger] self.classes.spec_get(c)->Some_0,
                        old(self).classes.spec_get(c)->Some_0,
                    ),
                forall|c: Seq<char>|
                    old(self).classes.has(c) && last_class(decls@.take(i as int), c) is Some ==> #[trigger] members_from(
                        self.classes.spec_get(c)->Some_0,
                        last_class(decls@.take(i as int), c)->Some_0.members@,
                    ),
                forall|c: Seq<char>|
                    last_class(decls@.take(i as int), c) is None ==> #[trigger] self.classes.spec_get(c) == old(self).classes.spec_get(c),
            decreases decls.len() - i,
        {
            let class = &decls[i];
            let ghost pre = decls@.take(i + 1);
            let ghost prev = decls@.take(i as int);
            proof {
                assert(pre.drop_last() =~= prev);
                assert(pre.last() == decls@[i as int]);
            }
            let (attrs, methods) = self.member_tables(&class.members);
            let placeholder = ClassInfo {
                base: None,
                ctor_params: Vec::new(),
                attributes: Table::new(),
                methods: Table::new(),
                span: class.span,
            };
            let ghost cb = self.classes;
            match self.classes.replace(class.name.as_str(), placeholder) {
                None => {
                    proof {
                        assert(cb.spec_get(class.name@) is None);
                        assert(!cb.has(class.name@));
                        assert(!old(self).classes.has(class.name@));
                        assert forall|c: Seq<char>|
                            last_class(pre, c) is None implies #[trigger] self.classes.spec_get(c) == old(self).classes.spec_get(c) by {
                            assert(last_class(prev, c) is None);
                        }
                        assert forall|c: Seq<char>|
                            old(self).classes.has(c) && last_class(pre, c) is Some implies #[trigger] members_from(
                                self.classes.spec_get(c)->Some_0,
                                last_class(pre, c)->Some_0.members@,
                            ) by {
                            assert(c != class.name@);
                        }
                    }
                },
                Some(info) => {
                    let ClassInfo { base, ctor_params, span, .. } = info;
                    let ghost ga = attrs;
                    let ghost gm = methods;
                    let updated = ClassInfo { base, ctor_params, attributes: attrs, methods, span };
                    let ghost gu = updated;
                    self.classes.replace(class.name.as_str(), updated);
                    proof {
                        assert(members_from(gu, class.members@));
                        assert forall|c: Seq<char>| #[trigger] self.classes.has(c) == old(self).classes.has(c) by {}
                        assert forall|c: Seq<char>|
                            old(self).classes.has(c) implies same_shell(
                                #[trigger] self.classes.spec_get(c)->Some_0,
                                old(self).classes.spec_get(c)->Some_0,
                            ) by {
                            if c != class.name@ {
                                assert(self.classes.spec_get(c) == cb.spec_get(c));
                            }
                        }
                        assert forall|c: Seq<char>|
                            old(self).classes.has(c) && last_class(pre, c) is Some implies #[trigger] members_from(
                                self.classes.spec_get(c)->Some_0,
                                last_class(pre, c)->Some_0.members@,
                            ) by {
                            if c != class.name@ {
                                assert(self.classes.spec_get(c) == cb.spec_get(c));
                                assert(last_class(pre, c) == last_class(prev, c));
                            }
                        }
                        assert forall|c: Seq<char>|
                            last_class(pre, c) is None implies #[trigger] self.classes.spec_get(c) == old(self).classes.spec_get(c) by {
                            assert(c != class.name@);
                            assert(last_class(prev, c) is None);
                        }
                    }
                },
            }
            i += 1;
        }
        proof {
            assert(decls@.take(i as int) =~= decls@);
        }
    }

    /// Registers the functions: a user declaration replaces a built-in of the
    /// same name, and any other taken name is reported.
    pub fn collect_functions(&mut self, decls: &Vec<FunctionDecl>)
        ensures
            final(self).protocols == old(self).protocols,
            final(self).classes == old(self).classes,
            final(self).current_class == old(self).current_class,
            final(self).builtin_names == old(self).builtin_names,
            err_views(final(self).errors@) == err_views(old(self).errors@) + fn_dup_errors(
                |n: Seq<char>| old(self).functions.has(n),
                |n: Seq<char>| old(self).builtins().contains(n),
                decls@,
            ),
            forall|n: Seq<char>|
                #[trigger] final(self).functions.has(n) == (old(self).functions.has(n) || declares_fn(decls@, n)),
            forall|n: Seq<char>|
                #[trigger] opt_fsig(final(self).functions.spec_get(n)) == fn_after(
                    old(self).functions,
                    old(self).builtins(),
                    decls@,
                    n,
                ),
    {
        let ghost fs0 = self.functions;
        let ghost bs = self.builtins();
        let mut i: usize = 0;
        while i < decls.len()
            invariant
                i <= decls@.len(),
                fs0 == old(self).functions,
                bs == old(self).builtins(),
                self.protocols == old(self).protocols,
                self.classes == old(self).classes,
                self.current_class == old(self).current_class,
                self.builtin_names == old(self).builtin_names,
                err_views(self.errors@) == err_views(old(self).errors@) + fn_dup_errors(|n: Seq<char>| fs0.has(n), |n: Seq<char>| bs.contains(n), decls@.take(i as int)),
                forall|n: Seq<char>|
                    #[trigger] self.functions.has(n) == (fs0.has(n) || declares_fn(decls@.take(i as int), n)),
                forall|n: Seq<char>|
                    #[trigger] opt_fsig(self.functions.spec_get(n)) == fn_after(fs0, bs, decls@.take(i as int), n),
            decreases decls.len() - i,
        {
            let func = &decls[i];
            let ghost pre = decls@.take(i + 1);
            let ghost prev = decls@.take(i as int);
            proof {
                assert(pre.drop_last() =~= prev);
                assert(pre.last() == decls@[i as int]);
                assert forall|n: Seq<char>| #[trigger] declares_fn(pre, n) == (declares_fn(prev, n) || n == func.name@) by {
                    if declares_fn(pre, n) {
                        let j = choose|j: int| 0 <= j < pre.len() && (#[trigger] pre[j]).name@ == n;
                        if j < i {
                            assert(prev[j] == pre[j]);
                        }
                    }
                    if declares_fn(prev, n) {
                        let j = choose|j: int| 0 <= j < prev.len() && (#[trigger] prev[j]).name@ == n;
                        assert(prev[j] == pre[j]);
                    }
                    if n == func.name@ {
                        assert(pre[i as int].name@ == n);
                    }
                }
            }
            let taken = self.functions.contains_key(func.name.as_str());
            let mut is_builtin = false;
            let mut k: usize = 0;
            while k < self.builtin_names.len()
                invariant
                    k <= self.builtin_names@.len(),
                    is_builtin == exists|j: int| 0 <= j < k && self.builtin_names@[j]@ == func.name@,
                decreases self.builtin_names.len() - k,
            {
                if crate::text::str_eq(self.builtin_names[k].as_str(), func.name.as_str()) {
                    is_builtin = true;
                }
                k += 1;
            }
            proof {
                assert(is_builtin == bs.contains(func.name@)) by {
                    if is_builtin {
                        let j = choose|j: int| 0 <= j < k && self.builtin_names@[j]@ == func.name@;
                        assert(bs[j] == func.name@);
                    }
                    if bs.contains(func.name@) {
                        let j = choose|j: int| 0 <= j < bs.len() && bs[j] == func.name@;
                        assert(self.builtin_names@[j]@ == func.name@);
                    }
                }
            }
            if taken && !is_builtin {
                self.report(SemanticError::DuplicateDeclaration { name: func.name.clone(), span: func.span });
                proof {
                    assert(err_views(self.errors@) =~= err_views(old(self).errors@) + fn_dup_errors(|n: Seq<char>| fs0.has(n), |n: Seq<char>| bs.contains(n), pre));
                    assert forall|n: Seq<char>|
                        #[trigger] opt_fsig(self.functions.spec_get(n)) == fn_after(fs0, bs, pre, n) by {
                    }
                }
            } else {
                let params = self.param_types(&func.params);
                let ret = self.resolve_opt(&func.return_type, Type::Unknown);
                let ghost fb = self.functions;
                self.functions.insert(func.name.clone(), FuncInfo { params, ret });
                proof {
                    assert(err_views(self.errors@) =~= err_views(old(self).errors@) + fn_dup_errors(|n: Seq<char>| fs0.has(n), |n: Seq<char>| bs.contains(n), pre));
                    assert forall|n: Seq<char>| #[trigger] self.functions.has(n) == (fs0.has(n) || declares_fn(pre, n)) by {
                        if n != func.name@ {
                            assert(self.functions.has(n) == fb.has(n));
                        }
                    }
                    assert forall|n: Seq<char>|
                        #[trigger] opt_fsig(self.functions.spec_get(n)) == fn_after(fs0, bs, pre, n) by {
                        if n != func.name@ {
                            assert(opt_fsig(self.functions.spec_get(n)) == opt_fsig(fb.spec_get(n)));
                        }
                    }
                }
            }
            i += 1;
        }
        proof {
            assert(decls@.take(i as int) =~= decls@);
        }
    }

    /// Registers each macro as a function from Objects to an Object.
    pub fn collect_macros(&mut self, decls: &Vec<MacroDecl>)
        ensures
            final(self).protocols == old(self).protocols,
            final(self).classes == old(self).classes,
            final(self).errors == old(self).errors,
            final(self).current_class == old(self).current_class,
            final(self).builtin_names == old(self).builtin_names,
            forall|n: Seq<char>|
                #[trigger] opt_fsig(final(self).functions.spec_get(n)) == macro_after(
                    decls@,
                    n,
                    opt_fsig(old(self).functions.spec_get(n)),
                ),
            forall|n: Seq<char>|
                #[trigger] final(self).functions.has(n) == (old(self).functions.has(n) || exists|j: int|
                    0 <= j < decls@.len() && decls@[j].name@ == n),
    {
        let mut i: usize = 0;
        while i < decls.len()
            invariant
                i <= decls@.len(),
                self.protocols == old(self).protocols,
                self.classes == old(self).classes,
                self.errors == old(self).errors,
                self.current_class == old(self).current_class,
                self.builtin_names == old(self).builtin_names,
                forall|n: Seq<char>|
                    #[trigger] opt_fsig(self.functions.spec_get(n)) == macro_after(
                        decls@.take(i as int),
                        n,
                        opt_fsig(old(self).functions.spec_get(n)),
                    ),
                forall|n: Seq<char>|
                    #[trigger] self.functions.has(n) == (old(self).functions.has(n) || exists|j: int|
                        0 <= j < i && decls@[j].name@ == n),
            decreases decls.len() - i,
        {
            let mac = &decls[i];
            let ghost pre = decls@.take(i + 1);
            proof {
                assert(pre.drop_last() =~= decls@.take(i as int));
                assert(pre.last() == decls@[i as int]);
            }
            let mut params: Vec<Type> = Vec::new();
            let mut j: usize = 0;
            while j < mac.params.len()
                invariant
                    j <= mac.params@.len(),
                    models(params@) == Seq::new(j as nat, |k: int| TypeV::Object),
                decreases mac.params.len() - j,
            {
                let ghost pb = params@;
                params.push(Type::Object);
                proof {
                    assert(params@ =~= pb.push(Type::Object));
                    assert(models(params@) =~= models(pb).push(TypeV::Object));
                    assert(models(params@) =~= Seq::new((j + 1) as nat, |k: int| TypeV::Object));
                }
                j += 1;
            }
            let ghost fb = self.functions;
            self.functions.insert(mac.name.clone(), FuncInfo { params, ret: Type::Object });
            proof {
                assert forall|n: Seq<char>|
                    #[trigger] opt_fsig(self.functions.spec_get(n)) == macro_after(pre, n, opt_fsig(old(self).functions.spec_get(n))) by {
                    if n != mac.name@ {
                        assert(opt_fsig(self.functions.spec_get(n)) == opt_fsig(fb.spec_get(n)));
                    }
                }
                assert forall|n: Seq<char>|
                    #[trigger] self.functions.has(n) == (old(self).functions.has(n) || exists|k: int|
                        0 <= k < i + 1 && decls@[k].name@ == n) by {
                    if n != mac.name@ {
                        assert(self.functions.has(n) == fb.has(n));
                    } else {
                        assert(decls@[i as int].name@ == n);
                    }
                }
            }
            i += 1;
        }
        proof {
            assert(decls@.take(i as int) =~= decls@);
        }
    }

    /// The first pass: registers the program's protocols, classes, functions
    /// and macros, reporting duplicate declarations, then reports each class
    /// whose chain of bases is cyclic.
    pub fn collect_declarations(&mut self, program: &Program)
        ensures
            final(self).current_class == old(self).current_class,
            final(self).builtin_names == old(self).builtin_names,
            err_views(final(self).errors@) == err_views(old(self).errors@) + class_dup_errors(
                |c: Seq<char>| old(self).classes.has(c),
                program.classes@,
            ) + fn_dup_errors(
                |n: Seq<char>| old(self).functions.has(n),
                |n: Seq<char>| old(self).builtins().contains(n),
                program.functions@,
            ) + cycle_errors(
                final(self).classes,
                final(self).classes.entries(),
            ),
            forall|p: Seq<char>|
                #[trigger] final(self).protocols.has(p) == (old(self).protocols.has(p) || first_proto(
                    program.protocols@,
                    p,
                ) is Some),
            forall|p: Seq<char>|
                old(self).protocols.has(p) ==> #[trigger] final(self).protocols.spec_get(p) == old(self).protocols.spec_get(p),
            forall|p: Seq<char>, m: Seq<char>|
                !old(self).protocols.has(p) && first_proto(program.protocols@, p) is Some ==> #[trigger] registered_as(
                    final(self).protocols.spec_get(p)->Some_0,
                    first_proto(program.protocols@, p)->Some_0,
                    m,
                ),
            forall|c: Seq<char>|
                #[trigger] final(self).classes.has(c) == (old(self).classes.has(c) || first_class(program.classes@, c) is Some),
            forall|c: Seq<char>|
                !old(self).classes.has(c) && first_class(program.classes@, c) is Some ==> #[trigger] shell_fields(
                    final(self).classes.spec_get(c)->Some_0,
                    first_class(program.classes@, c)->Some_0,
                ),
            forall|c: Seq<char>|
                old(self).classes.has(c) ==> same_shell(
                    #[trigger] final(self).classes.spec_get(c)->Some_0,
                    old(self).classes.spec_get(c)->Some_0,
                ),
            forall|c: Seq<char>|
                final(self).classes.has(c) && last_class(program.classes@, c) is Some ==> #[trigger] members_from(
                    final(self).classes.spec_get(c)->Some_0,
                    last_class(program.classes@, c)->Some_0.members@,
                ),
            forall|c: Seq<char>|
                old(self).classes.has(c) && last_class(program.classes@, c) is None
                    ==> #[trigger] final(self).classes.spec_get(c) == old(self).classes.spec_get(c),
            forall|n: Seq<char>|
                #[trigger] opt_fsig(final(self).functions.spec_get(n)) == macro_after(
                    program.macros@,
                    n,
                    fn_after(old(self).functions, old(self).builtins(), program.functions@, n),
                ),
    {
        self.collect_protocols(&program.protocols);
        let ghost s1 = *self;
        self.collect_class_shells(&program.classes);
        let ghost s2 = *self;
        self.fill_class_members(&program.classes);
        let ghost s3 = *self;
        self.collect_functions(&program.functions);
        self.collect_macros(&program.macros);
        let ghost s5 = *self;
        self.check_circular_inheritance();
        proof {
            assert(s1.builtins() == old(self).builtins());
            assert(s3.builtins() == old(self).builtins());
            assert forall|c: Seq<char>|
                !old(self).classes.has(c) && first_class(program.classes@, c) is Some implies #[trigger] shell_fields(
                    self.classes.spec_get(c)->Some_0,
                    first_class(program.classes@, c)->Some_0,
                ) by {
                assert(s2.classes.has(c));
                assert(shell_of(s2.classes.spec_get(c)->Some_0, first_class(program.classes@, c)->Some_0));
                assert(same_shell(s3.classes.spec_get(c)->Some_0, s2.classes.spec_get(c)->Some_0));
            }
            assert forall|c: Seq<char>|
                old(self).classes.has(c) implies same_shell(
                    #[trigger] self.classes.spec_get(c)->Some_0,
                    old(self).classes.spec_get(c)->Some_0,
                ) by {
                assert(s2.classes.spec_get(c) == s1.classes.spec_get(c));
                assert(s2.classes.has(c));
                assert(same_shell(s3.classes.spec_get(c)->Some_0, s2.classes.spec_get(c)->Some_0));
            }
            assert forall|c: Seq<char>|
                self.classes.has(c) && last_class(program.classes@, c) is Some implies #[trigger] members_from(
                    self.classes.spec_get(c)->Some_0,
                    last_class(program.classes@, c)->Some_0.members@,
                ) by {
                assert(s2.classes.has(c));
            }
            assert forall|c: Seq<char>|
                old(self).classes.has(c) && last_class(program.classes@, c) is None implies #[trigger] self.classes.spec_get(c)
                    == old(self).classes.spec_get(c) by {
                assert(s2.classes.spec_get(c) == s1.classes.spec_get(c));
                assert(s3.classes.spec_get(c) == s2.classes.spec_get(c));
            }
            assert(err_views(self.errors@) =~= err_views(old(self).errors@) + class_dup_errors(
                |c: Seq<char>| old(self).classes.has(c),
                program.classes@,
            ) + fn_dup_errors(
                |n: Seq<char>| old(self).functions.has(n),
                |n: Seq<char>| old(self).builtins().contains(n),
                program.functions@,
            ) + cycle_errors(
                self.classes,
                self.classes.entries(),
            ));
        }
    }

    /// Registers each protocol not seen before, in order.
    pub fn collect_protocols(&mut self, protos: &Vec<ProtocolDecl>)
        ensures
            final(self).classes == old(self).classes,
            final(self).functions == old(self).functions,
            final(self).errors == old(self).errors,
            final(self).current_class == old(self).current_class,
            final(self).builtin_names == old(self).builtin_names,
            forall|p: Seq<char>|
                #[trigger] final(self).protocols.has(p) == (old(self).protocols.has(p) || first_proto(protos@, p) is Some),
            forall|p: Seq<char>|
                old(self).protocols.has(p) ==> #[trigger] final(self).protocols.spec_get(p) == old(self).protocols.spec_get(p),
            forall|p: Seq<char>, m: Seq<char>|
                !old(self).protocols.has(p) && first_proto(protos@, p) is Some ==> #[trigger] registered_as(final(self).protocols.spec_get(p)->Some_0, first_proto(protos@, p)->Some_0, m),
    {
        let mut i: usize = 0;
        while i < protos.len()
            invariant
                i <= protos@.len(),
                self.classes == old(self).classes,
                self.functions == old(self).functions,
                self.errors == old(self).errors,
                self.current_class == old(self).current_class,
                self.builtin_names == old(self).builtin_names,
                forall|p: Seq<char>|
                    #[trigger] self.protocols.has(p) == (old(self).protocols.has(p) || first_proto(
                        protos@.take(i as int),
                        p,
                    ) is Some),
                forall|p: Seq<char>|
                    old(self).protocols.has(p) ==> #[trigger] self.protocols.spec_get(p) == old(self).protocols.spec_get(p),
                forall|p: Seq<char>, m: Seq<char>|
                    !old(self).protocols.has(p) && first_proto(protos@.take(i as int), p) is Some ==> #[trigger] registered_as(self.protocols.spec_get(p)->Some_0, first_proto(protos@.take(i as int), p)->Some_0, m),
            decreases protos.len() - i,
        {
            let proto = &protos[i];
            let ghost pre = protos@.take(i + 1);
            proof {
                assert(pre.drop_last() =~= protos@.take(i as int));
                assert(pre.last() == protos@[i as int]);
            }
            if !self.protocols.contains_key(proto.name.as_str()) {
                let methods = self.protocol_method_table(&proto.methods);
                let extends = proto.extends.clone();
                proof {
                    assert(extends@ == proto.extends@);
                }
                let ghost pb = self.protocols;
                let ghost mt = methods;
                let ghost ex = extends;
                self.protocols.insert(proto.name.clone(), ProtocolInfo { extends, methods });
                proof {
                    assert forall|p: Seq<char>|
                        #[trigger] self.protocols.has(p) == (old(self).protocols.has(p) || first_proto(pre, p) is Some) by {
                        if p == proto.name@ {
                        } else {
                            assert(self.protocols.has(p) == pb.has(p));
                        }
                    }
                    assert forall|p: Seq<char>|
                        old(self).protocols.has(p) implies #[trigger] self.protocols.spec_get(p) == old(self).protocols.spec_get(p) by {
                        assert(p != proto.name@);
                    }
                    assert forall|p: Seq<char>, m: Seq<char>|
                        !old(self).protocols.has(p) && first_proto(pre, p) is Some implies #[trigger] registered_as(self.protocols.spec_get(p)->Some_0, first_proto(pre, p)->Some_0, m) by {
                        if p != proto.name@ {
                            assert(self.protocols.spec_get(p) == pb.spec_get(p));
                        } else {
                            assert(first_proto(protos@.take(i as int), p) is None);
                            assert(first_proto(pre, p) == Some(*proto));
                            assert(self.protocols.spec_get(p) == Some(ProtocolInfo { extends: ex, methods: mt }));
                            assert(opt_sig(mt.spec_get(m)) == last_pm(proto.methods@, m));
                        }
                    }
                }
            } else {
                proof {
                    assert forall|p: Seq<char>|
                        #[trigger] self.protocols.has(p) == (old(self).protocols.has(p) || first_proto(pre, p) is Some) by {
                    }
                    assert forall|p: Seq<char>, m: Seq<char>|
                        !old(self).protocols.has(p) && first_proto(pre, p) is Some implies #[trigger] registered_as(
                            self.protocols.spec_get(p)->Some_0,
                            first_proto(pre, p)->Some_0,
                            m,
                        ) by {
                        assert(first_proto(protos@.take(i as int), p) is Some);
                        assert(first_proto(pre, p) == first_proto(protos@.take(i as int), p));
                    }
                }
            }
            i += 1;
        }
        proof {
            assert(protos@.take(i as int) =~= protos@);
        }
    }
}

} // verus!
