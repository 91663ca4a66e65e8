//! The checker's tables and the relations it decides on types: resolution
//! of annotations, class ancestry, member lookup, protocol conformance,
//! subtyping and the join of two types.
use vstd::prelude::*;
use crate::ast::{TypeExpr, BinaryOp};
use crate::lexer::Span;
use crate::text::{str_is, str_eq};
use super::error::{SemanticError, ErrV, err_views};
use super::table::{Table, has_of};
use super::types::{Type, TypeV, models, copy_types};

verus! {

/// Signature of a function.
#[derive(Debug, Clone)]
pub struct FuncInfo {
    pub params: Vec<Type>,
    pub ret: Type,
}

/// Signature of a method.
#[derive(Debug, Clone)]
pub struct MethodInfo {
    pub params: Vec<Type>,
    pub ret: Type,
}

impl FuncInfo {
    /// Parameter and result types by their models.
    pub open spec fn sig(&self) -> (Seq<TypeV>, TypeV) {
        (models(self.params@), self.ret.model())
    }

    pub fn copy(&self) -> (r: Self)
        ensures
            r.sig() == self.sig(),
    {
        FuncInfo { params: copy_types(&self.params), ret: self.ret.copy() }
    }
}

impl MethodInfo {
    /// Parameter and result types by their models.
    pub open spec fn sig(&self) -> (Seq<TypeV>, TypeV) {
        (models(self.params@), self.ret.model())
    }

    pub fn copy(&self) -> (r: Self)
        ensures
            r.sig() == self.sig(),
    {
        MethodInfo { params: copy_types(&self.params), ret: self.ret.copy() }
    }
}

/// A class: its base, constructor parameters and members.
#[derive(Debug)]
pub struct ClassInfo {
    pub base: Option<String>,
    pub ctor_params: Vec<Type>,
    pub attributes: Table<Type>,
    pub methods: Table<MethodInfo>,
    pub span: Span,
}

/// A protocol: the protocols it extends and the methods it requires.
#[derive(Debug)]
pub struct ProtocolInfo {
    pub extends: Vec<String>,
    pub methods: Table<MethodInfo>,
}

/// The semantic checker: declaration tables and the errors found so far.
pub struct Checker {
    pub errors: Vec<SemanticError>,
    pub classes: Table<ClassInfo>,
    pub functions: Table<FuncInfo>,
    pub protocols: Table<ProtocolInfo>,
    /// The class whose members are being checked.
    pub current_class: Option<String>,
    /// Functions that user declarations may shadow without a duplicate error.
    pub builtin_names: Vec<String>,
}

pub open spec fn opt_view(o: Option<String>) -> Option<Seq<char>> {
    match o {
        Some(s) => Some(s@),
        None => None,
    }
}

pub open spec fn opt_model(o: Option<Type>) -> Option<TypeV> {
    match o {
        Some(t) => Some(t.model()),
        None => None,
    }
}

pub open spec fn opt_sig(o: Option<MethodInfo>) -> Option<(Seq<TypeV>, TypeV)> {
    match o {
        Some(m) => Some(m.sig()),
        None => None,
    }
}

/// The type an annotation denotes.
pub open spec fn resolve(te: TypeExpr) -> TypeV
    decreases te,
{
    match te {
        TypeExpr::Named(n) => named_type(n@),
        TypeExpr::Array(inner) => TypeV::Array(Box::new(resolve(*inner))),
        TypeExpr::Iterable(inner) => TypeV::Array(Box::new(resolve(*inner))),
        TypeExpr::Function { .. } => TypeV::Object,
    }
}

/// The type a bare name denotes: a built-in type, or else a class or protocol.
pub open spec fn named_type(n: Seq<char>) -> TypeV {
    if n == "Number"@ {
        TypeV::Number
    } else if n == "Boolean"@ {
        TypeV::Boolean
    } else if n == "String"@ {
        TypeV::Str
    } else if n == "Object"@ {
        TypeV::Object
    } else if n == "Null"@ {
        TypeV::Null
    } else {
        TypeV::Named(n)
    }
}

/// `named_type` on a name.
pub fn named_type_of(n: &String) -> (r: Type)
    ensures
        r.model() == named_type(n@),
{
    if str_is(n, "Number") {
        Type::Number
    } else if str_is(n, "Boolean") {
        Type::Boolean
    } else if str_is(n, "String") {
        Type::Str
    } else if str_is(n, "Object") {
        Type::Object
    } else if str_is(n, "Null") {
        Type::Null
    } else {
        Type::Named(n.clone())
    }
}

/// The base of class `c` in `cls`, if `c` is a class there with one.
pub open spec fn base_in(cls: Table<ClassInfo>, c: Seq<char>) -> Option<Seq<char>> {
    match cls.spec_get(c) {
        Some(info) => opt_view(info.base),
        None => None,
    }
}

/// The `k`-th name up the chain of bases from `c`.
pub open spec fn ancestor(cls: Table<ClassInfo>, c: Seq<char>, k: nat) -> Option<Seq<char>>
    decreases k,
{
    if k == 0 {
        Some(c)
    } else {
        match ancestor(cls, c, (k - 1) as nat) {
            Some(a) => base_in(cls, a),
            None => None,
        }
    }
}

/// `sup` is among the first `fuel` bases up from `c`.
pub open spec fn reaches(cls: Table<ClassInfo>, c: Seq<char>, sup: Seq<char>, fuel: nat) -> bool
    decreases fuel,
{
    if fuel == 0 {
        false
    } else {
        match base_in(cls, c) {
            Some(b) => b == sup || reaches(cls, b, sup, (fuel - 1) as nat),
            None => false,
        }
    }
}

/// The chain of bases from `c` does not end within `fuel` steps.
pub open spec fn cyclic(cls: Table<ClassInfo>, c: Seq<char>, fuel: nat) -> bool
    decreases fuel,
{
    if fuel == 0 {
        true
    } else {
        match base_in(cls, c) {
            Some(b) => cyclic(cls, b, (fuel - 1) as nat),
            None => false,
        }
    }
}

/// The attribute `name` of the first class up from `c` that declares it.
pub open spec fn attr_in(cls: Table<ClassInfo>, c: Seq<char>, name: Seq<char>, fuel: nat) -> Option<TypeV>
    decreases fuel,
{
    if fuel == 0 {
        None
    } else {
        match cls.spec_get(c) {
            None => None,
            Some(info) => match info.attributes.spec_get(name) {
                Some(t) => Some(t.model()),
                None => match info.base {
                    Some(b) => attr_in(cls, b@, name, (fuel - 1) as nat),
                    None => None,
                },
            },
        }
    }
}

/// The method `name` of the first class up from `c` that declares it.
pub open spec fn method_in(cls: Table<ClassInfo>, c: Seq<char>, name: Seq<char>, fuel: nat) -> Option<(Seq<TypeV>, TypeV)>
    decreases fuel,
{
    if fuel == 0 {
        None
    } else {
        match cls.spec_get(c) {
            None => None,
            Some(info) => match info.methods.spec_get(name) {
                Some(m) => Some(m.sig()),
                None => match info.base {
                    Some(b) => method_in(cls, b@, name, (fuel - 1) as nat),
                    None => None,
                },
            },
        }
    }
}

/// Constructor parameters of the first class up from `c` that declares any.
pub open spec fn ctor_in(cls: Table<ClassInfo>, c: Seq<char>, fuel: nat) -> Seq<TypeV>
    decreases fuel,
{
    if fuel == 0 {
        Seq::empty()
    } else {
        match cls.spec_get(c) {
            None => Seq::empty(),
            Some(info) => if info.ctor_params@.len() > 0 {
                models(info.ctor_params@)
            } else {
                match info.base {
                    Some(b) => ctor_in(cls, b@, (fuel - 1) as nat),
                    None => Seq::empty(),
                }
            },
        }
    }
}

/// Walks `extends` depth first from protocol `p`, parents before `p`, skipping
/// protocols already visited: the visited list afterwards, and the protocols in
/// the order in which their own methods are collected.
pub open spec fn pwalk(ps: Table<ProtocolInfo>, p: Seq<char>, visited: Seq<Seq<char>>, fuel: nat) -> (
    Seq<Seq<char>>,
    Seq<Seq<char>>,
)
    decreases fuel, 0nat,
{
    if fuel == 0 || visited.contains(p) {
        (visited, Seq::empty())
    } else {
        match ps.spec_get(p) {
            None => (visited, Seq::empty()),
            Some(info) => {
                let r = pwalk_list(ps, info.extends@, 0, visited.push(p), (fuel - 1) as nat);
                (r.0, r.1.push(p))
            },
        }
    }
}

/// `pwalk` over `parents[i..]` in turn.
pub open spec fn pwalk_list(
    ps: Table<ProtocolInfo>,
    parents: Seq<String>,
    i: int,
    visited: Seq<Seq<char>>,
    fuel: nat,
) -> (Seq<Seq<char>>, Seq<Seq<char>>)
    decreases fuel, parents.len() + 1 - i,
{
    if i < 0 || i >= parents.len() {
        (visited, Seq::empty())
    } else {
        let a = pwalk(ps, parents[i]@, visited, fuel);
        let b = pwalk_list(ps, parents, i + 1, a.0, fuel);
        (b.0, a.1 + b.1)
    }
}

/// The signature of method `m` as the last protocol of `order` declaring it gives it.
pub open spec fn proto_sig(ps: Table<ProtocolInfo>, order: Seq<Seq<char>>, m: Seq<char>) -> Option<
    (Seq<TypeV>, TypeV),
>
    decreases order.len(),
{
    if order.len() == 0 {
        None
    } else {
        match ps.spec_get(order.last()) {
            Some(info) => match info.methods.spec_get(m) {
                Some(mi) => Some(mi.sig()),
                None => proto_sig(ps, order.drop_last(), m),
            },
            None => proto_sig(ps, order.drop_last(), m),
        }
    }
}

/// `prev`, overridden by the signatures that `order` gives.
pub open spec fn over(
    ps: Table<ProtocolInfo>,
    order: Seq<Seq<char>>,
    m: Seq<char>,
    prev: Option<(Seq<TypeV>, TypeV)>,
) -> Option<(Seq<TypeV>, TypeV)> {
    match proto_sig(ps, order, m) {
        Some(s) => Some(s),
        None => prev,
    }
}

proof fn lemma_proto_sig_concat(ps: Table<ProtocolInfo>, a: Seq<Seq<char>>, b: Seq<Seq<char>>, m: Seq<char>)
    ensures
        proto_sig(ps, a + b, m) == match proto_sig(ps, b, m) {
            Some(s) => Some(s),
            None => proto_sig(ps, a, m),
        },
    decreases b.len(),
{
    if b.len() == 0 {
        assert(a + b =~= a);
    } else {
        assert((a + b).last() == b.last());
        assert((a + b).drop_last() =~= a + b.drop_last());
        lemma_proto_sig_concat(ps, a, b.drop_last(), m);
    }
}

proof fn lemma_over_concat(
    ps: Table<ProtocolInfo>,
    a: Seq<Seq<char>>,
    b: Seq<Seq<char>>,
    m: Seq<char>,
    prev: Option<(Seq<TypeV>, TypeV)>,
)
    ensures
        over(ps, a + b, m, prev) == over(ps, b, m, over(ps, a, m, prev)),
{
    lemma_proto_sig_concat(ps, a, b, m);
}

pub open spec fn views(v: Seq<String>) -> Seq<Seq<char>> {
    v.map_values(|s: String| s@)
}

/// A size of types that the mapping of a primitive's class name to the primitive decreases.
pub open spec fn tsize(t: TypeV) -> nat
    decreases t,
{
    match t {
        TypeV::Array(e) => 1 + tsize(*e),
        TypeV::Named(_) => 2,
        _ => 1,
    }
}

/// The primitive type a class name stands for, if it names one.
pub open spec fn prim_named(n: Seq<char>) -> Option<TypeV> {
    if n == "Number"@ {
        Some(TypeV::Number)
    } else if n == "Boolean"@ {
        Some(TypeV::Boolean)
    } else if n == "String"@ {
        Some(TypeV::Str)
    } else {
        None
    }
}

/// The built-in class of a primitive type.
pub open spec fn prim_class(t: TypeV) -> Option<Seq<char>> {
    match t {
        TypeV::Number => Some("Number"@),
        TypeV::Boolean => Some("Boolean"@),
        TypeV::Str => Some("String"@),
        _ => None,
    }
}

/// How deep checks of a type against a protocol may nest inside one another:
/// one level more than there are pairs of a type named in the tables (or a
/// primitive) and a protocol, capped at `u64::MAX`. A nesting deeper than that
/// repeats a pair inside its own check, which would never end.
pub open spec fn subtype_depth_of(cls: Table<ClassInfo>, ps: Table<ProtocolInfo>) -> nat {
    let n = (cls.entries().len() + ps.entries().len() + 3) * ps.entries().len() + 1;
    if n <= u64::MAX {
        n
    } else {
        u64::MAX as nat
    }
}

/// Class `sub` is `sup`, or inherits from it; every class inherits from Object.
pub open spec fn class_sub(cls: Table<ClassInfo>, sub: Seq<char>, sup: Seq<char>) -> bool {
    sub == sup || sup == "Object"@ || reaches(cls, sub, sup, cls.entries().len() + 1)
}

/// Protocols in the order their own methods are collected for `p`.
pub open spec fn porder(ps: Table<ProtocolInfo>, p: Seq<char>) -> Seq<Seq<char>> {
    pwalk(ps, p, Seq::empty(), ps.entries().len()).1
}

/// The method `name` of values of type `t`.
pub open spec fn method_of(cls: Table<ClassInfo>, ps: Table<ProtocolInfo>, t: TypeV, name: Seq<char>) -> Option<(Seq<TypeV>, TypeV)> {
    match t {
        TypeV::Array(_) => if name == "size"@ {
            Some((Seq::empty(), TypeV::Number))
        } else {
            None
        },
        TypeV::Str => method_in(cls, "String"@, name, cls.entries().len() + 1),
        TypeV::Number => method_in(cls, "Number"@, name, cls.entries().len() + 1),
        TypeV::Boolean => method_in(cls, "Boolean"@, name, cls.entries().len() + 1),
        TypeV::Object => method_in(cls, "Object"@, name, cls.entries().len() + 1),
        TypeV::Named(n) => if ps.has(n) {
            proto_sig(ps, porder(ps, n), name)
        } else {
            method_in(cls, n, name, cls.entries().len() + 1)
        },
        _ => None,
    }
}

/// Whether `sub` may stand where `sup` is expected, where checking a class
/// against a protocol may nest `fuel` deep; `None` when that is not enough.
pub open spec fn subtype_at(cls: Table<ClassInfo>, ps: Table<ProtocolInfo>, sub: TypeV, sup: TypeV, fuel: nat) -> Option<bool>
    decreases fuel, tsize(sub),
{
    if sub == sup {
        Some(true)
    } else if sub is Unknown || sup is Unknown {
        Some(true)
    } else if sup is Object {
        Some(true)
    } else if sub is Null && !(sup is Number || sup is Boolean) {
        Some(true)
    } else {
        match sub {
            TypeV::Named(s) => match sup {
                TypeV::Named(p) => if ps.has(p) {
                    sat_at(cls, ps, s, p, fuel)
                } else {
                    Some(class_sub(cls, s, p))
                },
                _ => match prim_named(s) {
                    Some(m) => subtype_at(cls, ps, m, sup, fuel),
                    None => Some(false),
                },
            },
            TypeV::Array(se) => match sup {
                TypeV::Array(pe) => subtype_at(cls, ps, *se, *pe, fuel),
                _ => Some(false),
            },
            _ => match sup {
                TypeV::Named(p) => if ps.has(p) {
                    match prim_class(sub) {
                        Some(c) => sat_at(cls, ps, c, p, fuel),
                        None => Some(false),
                    }
                } else {
                    Some(false)
                },
                _ => Some(false),
            },
        }
    }
}

/// Whether class `c` has every method protocol `p` requires (structural
/// conformance): false if some method fails, else unknown if some check
/// runs out of `fuel`, else true.
pub open spec fn sat_at(cls: Table<ClassInfo>, ps: Table<ProtocolInfo>, c: Seq<char>, p: Seq<char>, fuel: nat) -> Option<bool>
    decreases fuel, 0nat,
{
    if fuel == 0 {
        None
    } else {
        let order = porder(ps, p);
        let meets = |m: Seq<char>|
            match method_of(cls, ps, TypeV::Named(c), m) {
                None => Some(false),
                Some(actual) => match subtype_at(cls, ps, 
                    actual.1,
                    proto_sig(ps, order, m)->Some_0.1,
                    (fuel - 1) as nat,
                ) {
                    Some(true) => Some(actual.0.len() == proto_sig(ps, order, m)->Some_0.0.len()),
                    other => other,
                },
            };
        if exists|m: Seq<char>| #[trigger] proto_sig(ps, order, m) is Some && meets(m) == Some(false) {
            Some(false)
        } else if exists|m: Seq<char>| #[trigger] proto_sig(ps, order, m) is Some && meets(m) is None {
            None
        } else {
            Some(true)
        }
    }
}

/// Errors for the classes of `es` whose chain of bases in `cls` is cyclic, in order.
pub open spec fn cycle_errors(cls: Table<ClassInfo>, es: Seq<(String, ClassInfo)>) -> Seq<ErrV>
    decreases es.len(),
{
    if es.len() == 0 {
        Seq::empty()
    } else {
        let rest = cycle_errors(cls, es.drop_last());
        let (name, info) = es.last();
        if cyclic(cls, name@, cls.entries().len() + 1) {
            rest.push(ErrV::CircularInheritance { class: name@, span: info.span })
        } else {
            rest
        }
    }
}

/// `sub` may stand where `sup` is expected, as far as the checker looks.
pub open spec fn sub_in_tables(cls: Table<ClassInfo>, ps: Table<ProtocolInfo>, sub: TypeV, sup: TypeV) -> bool {
    subtype_at(cls, ps, sub, sup, subtype_depth_of(cls, ps)) == Some(true)
}

/// Error for an operand of an arithmetic or ordering operator that is not a Number.
pub open spec fn num_err_in(cls: Table<ClassInfo>, ps: Table<ProtocolInfo>, op: BinaryOp, t: TypeV, span: Span) -> Seq<ErrV> {
    if !sub_in_tables(cls, ps, t, TypeV::Number) && !(t is Unknown) {
        seq![ErrV::NonNumericOperand { op: op.spec_debug_name(), got: t, span }]
    } else {
        Seq::empty()
    }
}

/// Error for an operand of a logical operator that is not a Boolean.
pub open spec fn bool_err_in(cls: Table<ClassInfo>, ps: Table<ProtocolInfo>, op: Seq<char>, t: TypeV, span: Span) -> Seq<ErrV> {
    if !sub_in_tables(cls, ps, t, TypeV::Boolean) && !(t is Unknown) {
        seq![ErrV::NonBooleanOperand { op, got: t, span }]
    } else {
        Seq::empty()
    }
}

/// Error for an operand of a concatenation known not to convert to a String.
pub open spec fn concat_err_in(cls: Table<ClassInfo>, ps: Table<ProtocolInfo>, t: TypeV, span: Span) -> Seq<ErrV> {
    if !sub_in_tables(cls, ps, t, TypeV::Str) && !(t is Unknown || t is Object || t is Number || t is Boolean || t is Null) {
        seq![ErrV::NonStringConcatArg { got: t, span }]
    } else {
        Seq::empty()
    }
}

/// Errors for the operands `l` and `r` of `op`.
pub open spec fn binary_errors_in(
    cls: Table<ClassInfo>,
    ps: Table<ProtocolInfo>,
    op: BinaryOp,
    l: TypeV,
    r: TypeV,
    span: Span,
) -> Seq<ErrV> {
    match op {
        BinaryOp::Add | BinaryOp::Sub | BinaryOp::Mul | BinaryOp::Div | BinaryOp::Mod | BinaryOp::Pow
        | BinaryOp::Lt | BinaryOp::Le | BinaryOp::Gt | BinaryOp::Ge => num_err_in(cls, ps, op, l, span) + num_err_in(
            cls,
            ps,
            op,
            r,
            span,
        ),
        BinaryOp::Concat | BinaryOp::ConcatSpace => concat_err_in(cls, ps, l, span) + concat_err_in(cls, ps, r, span),
        BinaryOp::Eq | BinaryOp::Ne => Seq::empty(),
        BinaryOp::And | BinaryOp::Or => bool_err_in(cls, ps, op.spec_debug_name(), l, span) + bool_err_in(
            cls,
            ps,
            op.spec_debug_name(),
            r,
            span,
        ),
    }
}

/// Checking steps compose: what two steps add, one after the other.
pub proof fn lemma_adds_trans(a: &Checker, b: &Checker, c: &Checker, x: Seq<ErrV>, y: Seq<ErrV>)
    requires
        b.adds(a, x),
        c.adds(b, y),
    ensures
        c.adds(a, x + y),
{
    assert(err_views(a.errors@) + x + y =~= err_views(a.errors@) + (x + y));
}

/// A step that reports nothing.
pub proof fn lemma_adds_none(a: &Checker)
    ensures
        a.adds(a, Seq::empty()),
{
    assert(err_views(a.errors@) + Seq::empty() =~= err_views(a.errors@));
}

pub proof fn lemma_only_errors_trans(a: &Checker, b: &Checker, c: &Checker)
    requires
        b.only_errors(a),
        c.only_errors(b),
    ensures
        c.only_errors(a),
{
}

impl Checker {
    pub open spec fn builtins(&self) -> Seq<Seq<char>> {
        self.builtin_names@.map_values(|s: String| s@)
    }

    /// Steps enough to walk any chain of bases.
    pub open spec fn chain_fuel(&self) -> nat {
        self.classes.entries().len() + 1
    }

    /// The base of class `c`, if `c` is a class with one.
    pub open spec fn base_of(&self, c: Seq<char>) -> Option<Seq<char>> {
        base_in(self.classes, c)
    }

    /// Class `sub` is `sup`, or inherits from it; every class inherits from Object.
    pub open spec fn class_sub(&self, sub: Seq<char>, sup: Seq<char>) -> bool {
        class_sub(self.classes, sub, sup)
    }

    pub open spec fn ancestor(&self, c: Seq<char>, k: nat) -> Option<Seq<char>> {
        ancestor(self.classes, c, k)
    }

    pub open spec fn reaches(&self, c: Seq<char>, sup: Seq<char>, fuel: nat) -> bool {
        reaches(self.classes, c, sup, fuel)
    }

    pub open spec fn cyclic(&self, c: Seq<char>, fuel: nat) -> bool {
        cyclic(self.classes, c, fuel)
    }

    pub open spec fn attr_in(&self, c: Seq<char>, name: Seq<char>, fuel: nat) -> Option<TypeV> {
        attr_in(self.classes, c, name, fuel)
    }

    pub open spec fn method_in(&self, c: Seq<char>, name: Seq<char>, fuel: nat) -> Option<(Seq<TypeV>, TypeV)> {
        method_in(self.classes, c, name, fuel)
    }

    pub open spec fn ctor_in(&self, c: Seq<char>, fuel: nat) -> Seq<TypeV> {
        ctor_in(self.classes, c, fuel)
    }

    /// Protocols in the order their own methods are collected for `p`.
    pub open spec fn porder(&self, p: Seq<char>) -> Seq<Seq<char>> {
        porder(self.protocols, p)
    }

    /// The method `name` of values of type `t`.
    pub open spec fn method_of(&self, t: TypeV, name: Seq<char>) -> Option<(Seq<TypeV>, TypeV)> {
        method_of(self.classes, self.protocols, t, name)
    }

    pub open spec fn subtype_at(&self, sub: TypeV, sup: TypeV, fuel: nat) -> Option<bool> {
        subtype_at(self.classes, self.protocols, sub, sup, fuel)
    }

    pub open spec fn sat_at(&self, c: Seq<char>, p: Seq<char>, fuel: nat) -> Option<bool> {
        sat_at(self.classes, self.protocols, c, p, fuel)
    }

    /// How the method `m` of class `c` meets what `order` requires of it.
    pub open spec fn meets(&self, c: Seq<char>, m: Seq<char>, order: Seq<Seq<char>>, fuel: nat) -> Option<bool> {
        match self.method_of(TypeV::Named(c), m) {
            None => Some(false),
            Some(actual) => match self.subtype_at(actual.1, proto_sig(self.protocols, order, m)->Some_0.1, fuel) {
                Some(true) => Some(actual.0.len() == proto_sig(self.protocols, order, m)->Some_0.0.len()),
                other => other,
            },
        }
    }

    /// `sub` may stand where `sup` is expected.
    pub open spec fn sub_v(&self, sub: TypeV, sup: TypeV) -> bool {
        self.subtype_at(sub, sup, subtype_depth_of(self.classes, self.protocols)) == Some(true)
    }

    /// The least common type of two branches.
    pub open spec fn join_v(&self, a: TypeV, b: TypeV) -> TypeV {
        if a == b {
            a
        } else if a is Unknown {
            b
        } else if b is Unknown {
            a
        } else if self.sub_v(a, b) {
            b
        } else if self.sub_v(b, a) {
            a
        } else {
            TypeV::Object
        }
    }

    /// Error for an operand of an arithmetic or ordering operator that is not a Number.
    pub open spec fn num_err(&self, op: BinaryOp, t: TypeV, span: Span) -> Seq<ErrV> {
        num_err_in(self.classes, self.protocols, op, t, span)
    }

    /// Error for an operand of a logical operator that is not a Boolean.
    pub open spec fn bool_err(&self, op: Seq<char>, t: TypeV, span: Span) -> Seq<ErrV> {
        bool_err_in(self.classes, self.protocols, op, t, span)
    }

    /// Error for an operand of a concatenation known not to convert to a String.
    pub open spec fn concat_err(&self, t: TypeV, span: Span) -> Seq<ErrV> {
        concat_err_in(self.classes, self.protocols, t, span)
    }

    /// Errors for the operands `l` and `r` of `op`.
    pub open spec fn binary_errors(&self, op: BinaryOp, l: TypeV, r: TypeV, span: Span) -> Seq<ErrV> {
        binary_errors_in(self.classes, self.protocols, op, l, r, span)
    }

    /// The type of `l op r`.
    pub open spec fn binary_type(op: BinaryOp) -> TypeV {
        match op {
            BinaryOp::Add | BinaryOp::Sub | BinaryOp::Mul | BinaryOp::Div | BinaryOp::Mod
            | BinaryOp::Pow => TypeV::Number,
            BinaryOp::Concat | BinaryOp::ConcatSpace => TypeV::Str,
            _ => TypeV::Boolean,
        }
    }

    /// `self` has the errors of `old` and perhaps more after them.
    pub open spec fn extends_errors(&self, old: &Checker) -> bool {
        &&& old.errors@.len() <= self.errors@.len()
        &&& forall|i: int| 0 <= i < old.errors@.len() ==> #[trigger] self.errors@[i] == old.errors@[i]
    }

    /// Only errors are added, and they are `es`.
    pub open spec fn adds(&self, old: &Checker, es: Seq<ErrV>) -> bool {
        &&& self.only_errors(old)
        &&& err_views(self.errors@) == err_views(old.errors@) + es
    }

    /// Only errors are added, and the scopes are as they were.
    pub open spec fn only_errors(&self, old: &Checker) -> bool {
        self.same_tables(old) && self.extends_errors(old)
    }

    /// Everything but the error list is as in `old`.
    pub open spec fn same_tables(&self, old: &Checker) -> bool {
        &&& self.classes == old.classes
        &&& self.functions == old.functions
        &&& self.protocols == old.protocols
        &&& self.current_class == old.current_class
        &&& self.builtin_names == old.builtin_names
    }

    /// The attribute `name` of values of type `t`.
    pub open spec fn attr_of(&self, t: TypeV, name: Seq<char>) -> Option<TypeV> {
        match t {
            TypeV::Named(n) => self.attr_in(n, name, self.chain_fuel()),
            _ => None,
        }
    }

    /// Whether class `sub` is `sup` or inherits from it.
    pub fn is_class_subtype(&self, sub: &str, sup: &str) -> (r: bool)
        ensures
            r == self.class_sub(sub@, sup@),
    {
        if str_eq(sub, sup) {
            return true;
        }
        if str_eq(sup, "Object") {
            return true;
        }
        let n = self.classes.len();
        let mut cur: String = sub.to_owned();
        let mut rem: usize = n;
        loop
            invariant
                rem <= n,
                n == self.classes.entries().len(),
                sub@ != sup@,
                sup@ != "Object"@,
                self.reaches(sub@, sup@, (n + 1) as nat) == self.reaches(cur@, sup@, (rem + 1) as nat),
            decreases rem,
        {
            match self.classes.get(cur.as_str()) {
                None => return false,
                Some(info) => match &info.base {
                    None => return false,
                    Some(b) => {
                        if str_eq(b.as_str(), sup) {
                            return true;
                        }
                        if rem == 0 {
                            assert(!self.reaches(b@, sup@, 0));
                            return false;
                        }
                        cur = b.clone();
                        rem -= 1;
                    },
                },
            }
        }
    }

    /// The attribute `name` declared by class `start` or the nearest base declaring it.
    fn attr_chain(&self, start: &str, name: &str) -> (r: Option<Type>)
        ensures
            opt_model(r) == self.attr_in(start@, name@, self.chain_fuel()),
    {
        let n = self.classes.len();
        let mut cur: String = start.to_owned();
        let mut rem: usize = n;
        loop
            invariant
                rem <= n,
                n == self.classes.entries().len(),
                self.attr_in(start@, name@, (n + 1) as nat) == self.attr_in(cur@, name@, (rem + 1) as nat),
            decreases rem,
        {
            match self.classes.get(cur.as_str()) {
                None => return None,
                Some(info) => match info.attributes.get(name) {
                    Some(t) => return Some(t.copy()),
                    None => match &info.base {
                        None => return None,
                        Some(b) => {
                            if rem == 0 {
                                assert(self.attr_in(b@, name@, 0) is None);
                                return None;
                            }
                            cur = b.clone();
                            rem -= 1;
                        },
                    },
                },
            }
        }
    }

    /// The method `name` declared by class `start` or the nearest base declaring it.
    fn method_chain(&self, start: &str, name: &str) -> (r: Option<MethodInfo>)
        ensures
            opt_sig(r) == self.method_in(start@, name@, self.chain_fuel()),
    {
        let n = self.classes.len();
        let mut cur: String = start.to_owned();
        let mut rem: usize = n;
        loop
            invariant
                rem <= n,
                n == self.classes.entries().len(),
                self.method_in(start@, name@, (n + 1) as nat) == self.method_in(cur@, name@, (rem + 1) as nat),
            decreases rem,
        {
            match self.classes.get(cur.as_str()) {
                None => return None,
                Some(info) => match info.methods.get(name) {
                    Some(m) => return Some(m.copy()),
                    None => match &info.base {
                        None => return None,
                        Some(b) => {
                            if rem == 0 {
                                assert(self.method_in(b@, name@, 0) is None);
                                return None;
                            }
                            cur = b.clone();
                            rem -= 1;
                        },
                    },
                },
            }
        }
    }

    /// Adds the methods of protocol `p` and of the protocols it extends to `out`,
    /// parents first so that a protocol's own signatures override inherited ones.
    fn collect_protocol_methods(
        &self,
        p: &str,
        out: &mut Table<MethodInfo>,
        visited: &mut Vec<String>,
        fuel: usize,
    )
        ensures
            views(final(visited)@) == pwalk(self.protocols, p@, views(old(visited)@), fuel as nat).0,
            forall|m: Seq<char>|
                #[trigger] opt_sig(final(out).spec_get(m)) == over(
                    self.protocols,
                    pwalk(self.protocols, p@, views(old(visited)@), fuel as nat).1,
                    m,
                    opt_sig(old(out).spec_get(m)),
                ),
        decreases fuel, 0nat,
    {
        let ghost vis0 = views(visited@);
        if fuel == 0 {
            return;
        }
        let mut k: usize = 0;
        while k < visited.len()
            invariant
                k <= visited@.len(),
                views(visited@) == vis0,
                forall|j: int| 0 <= j < k ==> visited@[j]@ != p@,
            decreases visited.len() - k,
        {
            if str_eq(visited[k].as_str(), p) {
                proof {
                    assert(vis0[k as int] == p@);
                    assert(vis0.contains(p@));
                }
                return;
            }
            k += 1;
        }
        proof {
            assert(!vis0.contains(p@)) by {
                if vis0.contains(p@) {
                    let j = choose|j: int| 0 <= j < vis0.len() && vis0[j] == p@;
                    assert(visited@[j]@ == p@);
                }
            }
        }
        match self.protocols.get(p) {
            None => {
                return;
            },
            Some(info) => {
                visited.push(p.to_owned());
                proof {
                    assert(views(visited@) =~= vis0.push(p@));
                }
                let ghost out0 = *out;
                let ghost vis1 = views(visited@);
                proof {
                    let r = pwalk_list(self.protocols, info.extends@, 0, vis1, (fuel - 1) as nat);
                    let e = Seq::<Seq<char>>::empty();
                    assert(r.1 == e + r.1);
                    assert forall|m: Seq<char>| #[trigger] opt_sig(out.spec_get(m)) == over(self.protocols, e, m, opt_sig(out0.spec_get(m))) by {
                        assert(proto_sig(self.protocols, e, m) is None);
                    }
                }
                let mut i: usize = 0;
                while i < info.extends.len()
                    invariant
                        i <= info.extends@.len(),
                        fuel > 0,
                        self.protocols.spec_get(p@) == Some(*info),
                        ({
                            let r = pwalk_list(self.protocols, info.extends@, 0, vis1, (fuel - 1) as nat);
                            let q = pwalk_list(self.protocols, info.extends@, i as int, views(visited@), (fuel - 1) as nat);
                            &&& r.0 == q.0
                            &&& exists|pre: Seq<Seq<char>>| #![auto] r.1 == pre + q.1 && forall|m: Seq<char>|
                                #[trigger] opt_sig(out.spec_get(m)) == over(self.protocols, pre, m, opt_sig(out0.spec_get(m)))
                        }),
                    decreases info.extends.len() - i,
                {
                    let ghost vbefore = views(visited@);
                    let ghost obefore = *out;
                    self.collect_protocol_methods(info.extends[i].as_str(), out, visited, fuel - 1);
                    proof {
                        let a = pwalk(self.protocols, info.extends@[i as int]@, vbefore, (fuel - 1) as nat);
                        let q = pwalk_list(self.protocols, info.extends@, i as int, vbefore, (fuel - 1) as nat);
                        let q2 = pwalk_list(self.protocols, info.extends@, i + 1, views(visited@), (fuel - 1) as nat);
                        assert(q.1 == a.1 + q2.1);
                        let r = pwalk_list(self.protocols, info.extends@, 0, vis1, (fuel - 1) as nat);
                        let pre = choose|pre: Seq<Seq<char>>| #![auto] r.1 == pre + q.1 && forall|m: Seq<char>|
                            #[trigger] opt_sig(obefore.spec_get(m)) == over(self.protocols, pre, m, opt_sig(out0.spec_get(m)));
                        let pre2 = pre + a.1;
                        assert(r.1 == pre2 + q2.1) by {
                            assert(pre + (a.1 + q2.1) =~= (pre + a.1) + q2.1);
                        }
                        assert forall|m: Seq<char>| #[trigger] opt_sig(out.spec_get(m)) == over(self.protocols, pre2, m, opt_sig(out0.spec_get(m))) by {
                            lemma_over_concat(self.protocols, pre, a.1, m, opt_sig(out0.spec_get(m)));
                        }
                    }
                    i += 1;
                }
                proof {
                    let r = pwalk_list(self.protocols, info.extends@, 0, vis1, (fuel - 1) as nat);
                    let q = pwalk_list(self.protocols, info.extends@, i as int, views(visited@), (fuel - 1) as nat);
                    assert(q.1 =~= Seq::empty());
                    let pre = choose|pre: Seq<Seq<char>>| #![auto] r.1 == pre + q.1 && forall|m: Seq<char>|
                        #[trigger] opt_sig(out.spec_get(m)) == over(self.protocols, pre, m, opt_sig(out0.spec_get(m)));
                    assert(pre + q.1 =~= pre);
                }
                let ghost out1 = *out;
                let n = info.methods.len();
                let mut j: usize = 0;
                while j < n
                    invariant
                        j <= n,
                        n == info.methods.entries().len(),
                        forall|m: Seq<char>| #[trigger] opt_sig(out.spec_get(m)) == if has_of(info.methods.entries().take(j as int), m) {
                            opt_sig(info.methods.spec_get(m))
                        } else {
                            opt_sig(out1.spec_get(m))
                        },
                    decreases n - j,
                {
                    let (name, mi) = info.methods.entry(j);
                    let ghost ob = *out;
                    out.insert(name.clone(), mi.copy());
                    proof {
                        let es = info.methods.entries();
                        assert forall|m: Seq<char>| #[trigger] opt_sig(out.spec_get(m)) == if has_of(es.take(j + 1), m) {
                            opt_sig(info.methods.spec_get(m))
                        } else {
                            opt_sig(out1.spec_get(m))
                        } by {
                            if m == name@ {
                                assert(es.take(j + 1)[j as int].0@ == m);
                            } else {
                                assert(opt_sig(out.spec_get(m)) == opt_sig(ob.spec_get(m)));
                                if has_of(es.take(j + 1), m) {
                                    let t = choose|t: int| 0 <= t < es.take(j + 1).len() && (#[trigger] es.take(j + 1)[t]).0@ == m;
                                    assert(es.take(j as int)[t].0@ == m);
                                }
                                if has_of(es.take(j as int), m) {
                                    let t = choose|t: int| 0 <= t < es.take(j as int).len() && (#[trigger] es.take(j as int)[t]).0@ == m;
                                    assert(es.take(j + 1)[t].0@ == m);
                                }
                            }
                        }
                    }
                    j += 1;
                }
                proof {
                    let es = info.methods.entries();
                    assert(es.take(n as int) =~= es);
                    let r = pwalk_list(self.protocols, info.extends@, 0, vis1, (fuel - 1) as nat);
                    let whole = pwalk(self.protocols, p@, vis0, fuel as nat);
                    assert(whole.1 == r.1.push(p@));
                    assert forall|m: Seq<char>| #[trigger] opt_sig(out.spec_get(m)) == over(
                        self.protocols, whole.1, m, opt_sig(out0.spec_get(m))) by {
                        assert(whole.1.last() == p@);
                        assert(whole.1.drop_last() =~= r.1);
                        if !has_of(es, m) {
                            assert(info.methods.spec_get(m) is None);
                        }
                    }
                }
            },
        }
    }

    /// Signatures of the methods protocol `proto_name` requires, its own and inherited.
    pub fn protocol_methods(&self, proto_name: &str) -> (r: Table<MethodInfo>)
        ensures
            forall|m: Seq<char>| #[trigger] opt_sig(r.spec_get(m)) == proto_sig(self.protocols, self.porder(proto_name@), m),
    {
        let mut all: Table<MethodInfo> = Table::new();
        let mut visited: Vec<String> = Vec::new();
        let fuel = self.protocols.len();
        proof {
            assert(views(visited@) =~= Seq::<Seq<char>>::empty());
        }
        self.collect_protocol_methods(proto_name, &mut all, &mut visited, fuel);
        all
    }

    /// `subtype_at` with the nesting of protocol checks bounded by `fuel`.
    fn subtype_in(&self, sub: &Type, sup: &Type, fuel: u64) -> (r: Option<bool>)
        ensures
            r == self.subtype_at(sub.model(), sup.model(), fuel as nat),
        decreases fuel, tsize(sub.model()),
    {
        if sub.same(sup) {
            return Some(true);
        }
        match (sub, sup) {
            (Type::Unknown, _) => return Some(true),
            (_, Type::Unknown) => return Some(true),
            (_, Type::Object) => return Some(true),
            (Type::Null, _) => {
                if !sup.is_primitive() {
                    return Some(true);
                }
            },
            _ => {},
        }
        match sub {
            Type::Named(s) => match sup {
                Type::Named(p) => {
                    if self.is_protocol(p.as_str()) {
                        self.satisfies_in(s.as_str(), p.as_str(), fuel)
                    } else {
                        Some(self.is_class_subtype(s.as_str(), p.as_str()))
                    }
                },
                _ => {
                    if str_is(s, "Number") {
                        self.subtype_in(&Type::Number, sup, fuel)
                    } else if str_is(s, "Boolean") {
                        self.subtype_in(&Type::Boolean, sup, fuel)
                    } else if str_is(s, "String") {
                        self.subtype_in(&Type::Str, sup, fuel)
                    } else {
                        Some(false)
                    }
                },
            },
            Type::Array(se) => match sup {
                Type::Array(pe) => self.subtype_in(se, pe, fuel),
                _ => Some(false),
            },
            _ => match sup {
                Type::Named(p) => {
                    if self.is_protocol(p.as_str()) {
                        match sub {
                            Type::Number => self.satisfies_in("Number", p.as_str(), fuel),
                            Type::Boolean => self.satisfies_in("Boolean", p.as_str(), fuel),
                            Type::Str => self.satisfies_in("String", p.as_str(), fuel),
                            _ => Some(false),
                        }
                    } else {
                        Some(false)
                    }
                },
                _ => Some(false),
            },
        }
    }

    /// `sat_at`: class `c` against protocol `p`, nesting at most `fuel` deep.
    fn satisfies_in(&self, c: &str, p: &str, fuel: u64) -> (r: Option<bool>)
        ensures
            r == self.sat_at(c@, p@, fuel as nat),
        decreases fuel, 0nat,
    {
        if fuel == 0 {
            return None;
        }
        let required = self.protocol_methods(p);
        let ghost order = self.porder(p@);
        let ghost f = (fuel - 1) as nat;
        let n = required.len();
        let mut unknown = false;
        let mut i: usize = 0;
        while i < n
            invariant
                i <= n,
                fuel > 0,
                f == fuel - 1,
                n == required.entries().len(),
                order == self.porder(p@),
                forall|m: Seq<char>| #[trigger] opt_sig(required.spec_get(m)) == proto_sig(self.protocols, order, m),
                forall|j: int| 0 <= j < i ==> self.meets(c@, (#[trigger] required.entries()[j]).0@, order, f) != Some(false),
                unknown == exists|j: int| 0 <= j < i && self.meets(c@, (#[trigger] required.entries()[j]).0@, order, f) is None,
            decreases n - i,
        {
            let (name, req) = required.entry(i);
            let ghost key = name@;
            proof {
                assert(opt_sig(required.spec_get(key)) == Some(req.sig()));
                assert(proto_sig(self.protocols, order, key) == Some(req.sig()));
            }
            let res: Option<bool> = match self.lookup_method(&Type::Named(c.to_owned()), name.as_str()) {
                None => Some(false),
                Some(actual) => match self.subtype_in(&actual.ret, &req.ret, fuel - 1) {
                    Some(true) => Some(actual.params.len() == req.params.len()),
                    other => other,
                },
            };
            proof {
                assert(res == self.meets(c@, key, order, f));
            }
            match res {
                Some(false) => {
                    proof {
                        assert(proto_sig(self.protocols, order, key) is Some && self.meets(c@, key, order, f) == Some(false));
                    }
                    return Some(false);
                },
                None => {
                    unknown = true;
                },
                Some(true) => {},
            }
            i += 1;
        }
        proof {
            assert forall|m: Seq<char>| #[trigger] proto_sig(self.protocols, order, m) is Some implies self.meets(c@, m, order, f) != Some(false)
                && (self.meets(c@, m, order, f) is None ==> unknown) by {
                assert(opt_sig(required.spec_get(m)) is Some);
                assert(required.spec_get(m) is Some);
                assert(required.has(m));
                let j = choose|j: int| 0 <= j < required.entries().len() && (#[trigger] required.entries()[j]).0@ == m;
                assert(required.entries()[j].0@ == m);
            }
        }
        if unknown {
            proof {
                let j = choose|j: int| 0 <= j < i && self.meets(c@, (#[trigger] required.entries()[j]).0@, order, f) is None;
                let (nm, mi) = required.entries()[j];
                assert(required.has(nm@)) by {
                    assert(required.entries()[j].0@ == nm@);
                }
                assert(opt_sig(required.spec_get(nm@)) is Some);
                assert(proto_sig(self.protocols, order, nm@) is Some);
            }
            None
        } else {
            Some(true)
        }
    }

    /// The nesting depth that checks against protocols are given.
    pub fn subtype_depth(&self) -> (r: u64)
        ensures
            r as nat == subtype_depth_of(self.classes, self.protocols),
    {
        let a = self.classes.len() as u128;
        let b = self.protocols.len() as u128;
        proof {
            assert(self.classes.entries().len() == a);
            assert(self.protocols.entries().len() == b);
        }
        match (a + b + 3).checked_mul(b) {
            Some(m) => if m < u64::MAX as u128 {
                m as u64 + 1
            } else {
                u64::MAX
            },
            None => u64::MAX,
        }
    }

    /// Whether class `class_name` has every method protocol `proto_name` requires,
    /// with compatible result types and as many parameters.
    pub fn class_satisfies_protocol(&self, class_name: &str, proto_name: &str) -> (r: bool)
        ensures
            r == (self.sat_at(class_name@, proto_name@, subtype_depth_of(self.classes, self.protocols)) == Some(true)),
    {
        match self.satisfies_in(class_name, proto_name, self.subtype_depth()) {
            Some(b) => b,
            None => false,
        }
    }

    /// Whether a value of type `sub` may stand where `sup` is expected.
    pub fn is_subtype(&self, sub: &Type, sup: &Type) -> (r: bool)
        ensures
            r == (self.subtype_at(sub.model(), sup.model(), subtype_depth_of(self.classes, self.protocols)) == Some(true)),
    {
        match self.subtype_in(sub, sup, self.subtype_depth()) {
            Some(b) => b,
            None => false,
        }
    }

    /// The least upper bound of two types, for merging branches.
    pub fn join(&self, a: &Type, b: &Type) -> (r: Type)
        ensures
            r.model() == self.join_v(a.model(), b.model()),
    {
        if a.same(b) {
            return a.copy();
        }
        if let Type::Unknown = a {
            return b.copy();
        }
        if let Type::Unknown = b {
            return a.copy();
        }
        if self.is_subtype(a, b) {
            return b.copy();
        }
        if self.is_subtype(b, a) {
            return a.copy();
        }
        Type::Object
    }

    /// Appends `e` to the errors.
    pub(crate) fn report(&mut self, e: SemanticError)
        ensures
            final(self).same_tables(old(self)),
            final(self).only_errors(old(self)),
            final(self).errors@ == old(self).errors@.push(e),
            err_views(final(self).errors@) == err_views(old(self).errors@).push(e@),
    {
        let ghost before = self.errors@;
        self.errors.push(e);
        proof {
            assert(self.errors@ =~= before.push(e));
            assert(err_views(self.errors@) =~= err_views(before).push(e@));
            assert(self.errors@.subrange(0, before.len() as int) =~= before);
        }
    }

    /// Reports `t` if it is not a Number.
    fn require_number(&mut self, op: &BinaryOp, t: &Type, span: Span)
        ensures
            final(self).only_errors(old(self)),
            final(self).same_tables(old(self)),
            err_views(final(self).errors@) == err_views(old(self).errors@) + old(self).num_err(*op, t.model(), span),
    {
        proof {
            assert(self.errors@.subrange(0, self.errors@.len() as int) =~= self.errors@);
        }
        let ghost before = err_views(self.errors@);
        let bad = !self.is_subtype(t, &Type::Number) && !matches!(t, Type::Unknown);
        if bad {
            self.report(SemanticError::NonNumericOperand { op: op.debug_name(), got: t.copy(), span });
        }
        proof {
            if bad {
                assert(err_views(self.errors@) =~= before + old(self).num_err(*op, t.model(), span));
            } else {
                assert(err_views(self.errors@) =~= before + old(self).num_err(*op, t.model(), span));
            }
        }
    }

    /// Reports `t` if it is not a Boolean.
    fn require_boolean(&mut self, op: String, t: &Type, span: Span)
        ensures
            final(self).only_errors(old(self)),
            final(self).same_tables(old(self)),
            err_views(final(self).errors@) == err_views(old(self).errors@) + old(self).bool_err(op@, t.model(), span),
    {
        proof {
            assert(self.errors@.subrange(0, self.errors@.len() as int) =~= self.errors@);
        }
        let ghost before = err_views(self.errors@);
        let bad = !self.is_subtype(t, &Type::Boolean) && !matches!(t, Type::Unknown);
        if bad {
            self.report(SemanticError::NonBooleanOperand { op, got: t.copy(), span });
        }
        proof {
            assert(err_views(self.errors@) =~= before + old(self).bool_err(op@, t.model(), span));
        }
    }

    /// Reports `t` if a concatenation cannot take it.
    fn require_concat(&mut self, t: &Type, span: Span)
        ensures
            final(self).only_errors(old(self)),
            final(self).same_tables(old(self)),
            err_views(final(self).errors@) == err_views(old(self).errors@) + old(self).concat_err(t.model(), span),
    {
        proof {
            assert(self.errors@.subrange(0, self.errors@.len() as int) =~= self.errors@);
        }
        let ghost before = err_views(self.errors@);
        let lenient = match t {
            Type::Unknown | Type::Object | Type::Number | Type::Boolean | Type::Null => true,
            _ => false,
        };
        let bad = !self.is_subtype(t, &Type::Str) && !lenient;
        if bad {
            self.report(SemanticError::NonStringConcatArg { got: t.copy(), span });
        }
        proof {
            assert(err_views(self.errors@) =~= before + old(self).concat_err(t.model(), span));
        }
    }

    /// Checks the operand types of a binary operator and gives the result type.
    pub fn check_binary(&mut self, op: &BinaryOp, lt: &Type, rt: &Type, span: Span) -> (r: Type)
        ensures
            final(self).only_errors(old(self)),
            r.model() == Checker::binary_type(*op),
            final(self).same_tables(old(self)),
            err_views(final(self).errors@) == err_views(old(self).errors@) + old(self).binary_errors(
                *op,
                lt.model(),
                rt.model(),
                span,
            ),
    {
        proof {
            assert(self.errors@.subrange(0, self.errors@.len() as int) =~= self.errors@);
        }
        let ghost e0 = err_views(self.errors@);
        match op {
            BinaryOp::Add | BinaryOp::Sub | BinaryOp::Mul | BinaryOp::Div | BinaryOp::Mod | BinaryOp::Pow => {
                self.require_number(op, lt, span);
                let ghost s1 = *self;
                self.require_number(op, rt, span);
                proof {
                    lemma_only_errors_trans(old(self), &s1, self);
                }
                proof {
                    assert(err_views(self.errors@) =~= e0 + old(self).binary_errors(*op, lt.model(), rt.model(), span));
                }
                Type::Number
            },
            BinaryOp::Concat | BinaryOp::ConcatSpace => {
                self.require_concat(lt, span);
                let ghost s1 = *self;
                self.require_concat(rt, span);
                proof {
                    lemma_only_errors_trans(old(self), &s1, self);
                }
                proof {
                    assert(err_views(self.errors@) =~= e0 + old(self).binary_errors(*op, lt.model(), rt.model(), span));
                }
                Type::Str
            },
            BinaryOp::Eq | BinaryOp::Ne => {
                proof {
                    assert(err_views(self.errors@) =~= e0 + old(self).binary_errors(*op, lt.model(), rt.model(), span));
                }
                Type::Boolean
            },
            BinaryOp::Lt | BinaryOp::Le | BinaryOp::Gt | BinaryOp::Ge => {
                self.require_number(op, lt, span);
                let ghost s1 = *self;
                self.require_number(op, rt, span);
                proof {
                    lemma_only_errors_trans(old(self), &s1, self);
                }
                proof {
                    assert(err_views(self.errors@) =~= e0 + old(self).binary_errors(*op, lt.model(), rt.model(), span));
                }
                Type::Boolean
            },
            BinaryOp::And | BinaryOp::Or => {
                self.require_boolean(op.debug_name(), lt, span);
                let ghost s1 = *self;
                self.require_boolean(op.debug_name(), rt, span);
                proof {
                    lemma_only_errors_trans(old(self), &s1, self);
                }
                proof {
                    assert(err_views(self.errors@) =~= e0 + old(self).binary_errors(*op, lt.model(), rt.model(), span));
                }
                Type::Boolean
            },
        }
    }

    /// Looks up a method on a type, including inherited ones.
    pub fn lookup_method(&self, ty: &Type, name: &str) -> (r: Option<MethodInfo>)
        ensures
            opt_sig(r) == self.method_of(ty.model(), name@),
    {
        match ty {
            Type::Array(_) => {
                if str_eq(name, "size") {
                    let m = MethodInfo { params: Vec::new(), ret: Type::Number };
                    proof {
                        assert(models(m.params@) =~= Seq::empty());
                        assert(m.sig() == (Seq::<TypeV>::empty(), TypeV::Number));
                    }
                    Some(m)
                } else {
                    None
                }
            },
            Type::Str => self.method_chain("String", name),
            Type::Number => self.method_chain("Number", name),
            Type::Boolean => self.method_chain("Boolean", name),
            Type::Object => self.method_chain("Object", name),
            Type::Named(n) => {
                if self.is_protocol(n.as_str()) {
                    let all = self.protocol_methods(n.as_str());
                    proof {
                        assert(opt_sig(all.spec_get(name@)) == proto_sig(self.protocols, self.porder(n@), name@));
                    }
                    match all.get(name) {
                        Some(m) => Some(m.copy()),
                        None => None,
                    }
                } else {
                    self.method_chain(n.as_str(), name)
                }
            },
            _ => None,
        }
    }

    /// Looks up an attribute on a type, including inherited ones.
    pub fn lookup_attribute(&self, ty: &Type, name: &str) -> (r: Option<Type>)
        ensures
            opt_model(r) == self.attr_of(ty.model(), name@),
    {
        match ty {
            Type::Named(n) => self.attr_chain(n.as_str(), name),
            _ => None,
        }
    }

    /// Constructor parameters of `class_name`, inherited from the nearest base
    /// that declares any when it declares none.
    pub fn effective_ctor_params(&self, class_name: &str) -> (r: Vec<Type>)
        ensures
            models(r@) == self.ctor_in(class_name@, self.chain_fuel()),
    {
        let n = self.classes.len();
        let mut cur: String = class_name.to_owned();
        let mut rem: usize = n;
        loop
            invariant
                rem <= n,
                n == self.classes.entries().len(),
                self.ctor_in(class_name@, (n + 1) as nat) == self.ctor_in(cur@, (rem + 1) as nat),
            decreases rem,
        {
            match self.classes.get(cur.as_str()) {
                None => return Vec::new(),
                Some(info) => {
                    if info.ctor_params.len() > 0 {
                        return copy_types(&info.ctor_params);
                    }
                    match &info.base {
                        None => return Vec::new(),
                        Some(b) => {
                            if rem == 0 {
                                assert(self.ctor_in(b@, 0) =~= Seq::empty());
                                let r: Vec<Type> = Vec::new();
                                assert(models(r@) =~= Seq::empty());
                                return r;
                            }
                            cur = b.clone();
                            rem -= 1;
                        },
                    }
                },
            }
        }
    }

    /// Whether the chain of bases from `name` never ends.
    pub fn has_cycle(&self, name: &str) -> (r: bool)
        ensures
            r == self.cyclic(name@, self.chain_fuel()),
    {
        let n = self.classes.len();
        let mut cur: String = name.to_owned();
        let mut rem: usize = n;
        loop
            invariant
                rem <= n,
                n == self.classes.entries().len(),
                self.cyclic(name@, (n + 1) as nat) == self.cyclic(cur@, (rem + 1) as nat),
            decreases rem,
        {
            match self.classes.get(cur.as_str()) {
                None => return false,
                Some(info) => match &info.base {
                    None => return false,
                    Some(b) => {
                        if rem == 0 {
                            assert(self.cyclic(b@, 0));
                            return true;
                        }
                        cur = b.clone();
                        rem -= 1;
                    },
                },
            }
        }
    }

    /// Reports each class whose chain of bases is cyclic.
    pub fn check_circular_inheritance(&mut self)
        ensures
            final(self).classes == old(self).classes,
            final(self).functions == old(self).functions,
            final(self).protocols == old(self).protocols,
            final(self).current_class == old(self).current_class,
            final(self).builtin_names == old(self).builtin_names,
            err_views(final(self).errors@) == err_views(old(self).errors@) + cycle_errors(
                old(self).classes,
                old(self).classes.entries(),
            ),
    {
        let n = self.classes.len();
        let mut i: usize = 0;
        while i < n
            invariant
                i <= n,
                n == self.classes.entries().len(),
                self.classes == old(self).classes,
                self.functions == old(self).functions,
                self.protocols == old(self).protocols,
                self.current_class == old(self).current_class,
                self.builtin_names == old(self).builtin_names,
                err_views(self.errors@) == err_views(old(self).errors@) + cycle_errors(
                    old(self).classes,
                    old(self).classes.entries().take(i as int),
                ),
            decreases n - i,
        {
            let (name, info) = self.classes.entry(i);
            let cyc = self.has_cycle(name.as_str());
            proof {
                let es = old(self).classes.entries();
                assert(es.take(i + 1).drop_last() =~= es.take(i as int));
                assert(es.take(i + 1).last() == es[i as int]);
                assert(old(self).chain_fuel() == self.chain_fuel());
                assert(old(self).cyclic(name@, self.chain_fuel()) == self.cyclic(name@, self.chain_fuel()));
            }
            if cyc {
                let e = SemanticError::CircularInheritance { class: name.clone(), span: info.span };
                let ghost before = self.errors@;
                self.errors.push(e);
                proof {
                    assert(self.errors@ =~= before.push(e));
                    assert(err_views(self.errors@) =~= err_views(before).push(e@));
                }
            }
            i += 1;
        }
        proof {
            assert(old(self).classes.entries().take(n as int) =~= old(self).classes.entries());
        }
    }

    /// Resolves a type annotation.
    pub fn resolve_type(&mut self, te: &TypeExpr) -> (r: Type)
        ensures
            r.model() == resolve(*te),
            *final(self) == *old(self),
        decreases te,
    {
        match te {
            TypeExpr::Named(n) => named_type_of(n),
            TypeExpr::Array(inner) => Type::Array(Box::new(self.resolve_type(inner))),
            TypeExpr::Iterable(inner) => Type::Array(Box::new(self.resolve_type(inner))),
            TypeExpr::Function { .. } => Type::Object,
        }
    }

    /// Whether `named` is a declared protocol.
    pub fn is_protocol(&self, named: &str) -> (r: bool)
        ensures
            r == self.protocols.has(named@),
    {
        self.protocols.contains_key(named)
    }
}

} // verus!
