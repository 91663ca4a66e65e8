//! Properties of the checker's relations that hold for every table.
use vstd::prelude::*;
use crate::lexer::Span;
use super::checker::{Checker, ClassInfo, ProtocolInfo, ancestor, base_in, reaches, cyclic, binary_errors_in};
use super::table::{Table, lemma_distinct_keys_bounded};
use super::types::TypeV;
use super::infer::{Ctx, ty_of, cond_errs, errs_of};
use crate::ast::{BinaryOp, Expr, ExprS};

verus! {

/// Every type is a subtype of itself.
pub proof fn law_subtype_reflexive(ck: Checker, t: TypeV)
    ensures
        ck.sub_v(t, t),
{
}

/// Unknown, the type of unannotated parameters, is compatible with every type
/// in both directions.
pub proof fn law_unknown_compatible(ck: Checker, t: TypeV)
    ensures
        ck.sub_v(TypeV::Unknown, t),
        ck.sub_v(t, TypeV::Unknown),
{
}

/// Object is the top of the hierarchy: every type is a subtype of it.
pub proof fn law_object_is_top(ck: Checker, t: TypeV)
    ensures
        ck.sub_v(t, TypeV::Object),
{
}

/// Null may stand wherever a type other than Number and Boolean is expected.
pub proof fn law_null_below_non_primitives(ck: Checker, t: TypeV)
    requires
        !(t is Number || t is Boolean),
    ensures
        ck.sub_v(TypeV::Null, t),
{
}

/// Null is not a Number or a Boolean.
pub proof fn law_null_not_primitive(ck: Checker)
    ensures
        !ck.sub_v(TypeV::Null, TypeV::Number),
        !ck.sub_v(TypeV::Null, TypeV::Boolean),
{
}

/// The join of two branch types is one of them or Object, and a supertype of both.
pub proof fn law_join_upper_bound(ck: Checker, a: TypeV, b: TypeV)
    ensures
        ck.join_v(a, b) == a || ck.join_v(a, b) == b || ck.join_v(a, b) == TypeV::Object,
        ck.sub_v(a, ck.join_v(a, b)),
        ck.sub_v(b, ck.join_v(a, b)),
{
}

/// Joining a type with itself or with Unknown gives the type back.
pub proof fn law_join_identity(ck: Checker, a: TypeV)
    ensures
        ck.join_v(a, a) == a,
        ck.join_v(TypeV::Unknown, a) == a,
        ck.join_v(a, TypeV::Unknown) == a,
{
}

/// A class is a subtype of its base, and every class of Object.
pub proof fn law_class_below_base(ck: Checker, c: Seq<char>, b: Seq<char>)
    requires
        ck.base_of(c) == Some(b),
    ensures
        ck.class_sub(c, b),
        ck.class_sub(c, "Object"@),
{
}

/// Concatenation takes Strings and anything that converts to one at run
/// time: Numbers, Booleans, Objects, Null and unknown values.
pub proof fn law_concat_lenient(ck: Checker, t: TypeV, span: Span)
    requires
        t is Str || t is Number || t is Boolean || t is Object || t is Null || t is Unknown,
    ensures
        ck.concat_err(t, span) =~= Seq::empty(),
{
}

/// Arithmetic and ordering take Numbers and unknown values without error.
pub proof fn law_numbers_accepted(ck: Checker, op: crate::ast::BinaryOp, t: TypeV, span: Span)
    requires
        t is Number || t is Unknown,
    ensures
        ck.num_err(op, t, span) =~= Seq::empty(),
{
}

/// Walking `i` steps then `t` more is walking `i + t`.
proof fn lemma_ancestor_compose(cls: Table<ClassInfo>, c: Seq<char>, i: nat, t: nat)
    ensures
        ancestor(cls, c, i + t) == match ancestor(cls, c, i) {
            Some(a) => ancestor(cls, a, t),
            None => None,
        },
    decreases t,
{
    if t > 0 {
        lemma_ancestor_compose(cls, c, i, (t - 1) as nat);
        assert((i + t - 1) as nat == i + (t - 1) as nat);
    }
}

/// Past the end of the chain there is nothing.
proof fn lemma_ancestor_none(cls: Table<ClassInfo>, c: Seq<char>, i: nat, t: nat)
    requires
        ancestor(cls, c, i) is None,
    ensures
        ancestor(cls, c, i + t) is None,
    decreases t,
{
    if t > 0 {
        lemma_ancestor_none(cls, c, i, (t - 1) as nat);
        assert((i + t - 1) as nat == i + (t - 1) as nat);
    }
}

/// Before a step that exists, every name on the way is a class.
proof fn lemma_ancestor_prefix(cls: Table<ClassInfo>, c: Seq<char>, k: nat, m: nat)
    requires
        ancestor(cls, c, k) is Some,
        m < k,
    ensures
        ancestor(cls, c, m) is Some,
        cls.has(ancestor(cls, c, m)->Some_0),
    decreases k,
{
    let prev = ancestor(cls, c, (k - 1) as nat);
    assert(prev is Some);
    let a = prev->Some_0;
    assert(base_in(cls, a) is Some);
    assert(cls.spec_get(a) is Some);
    if m < k - 1 {
        lemma_ancestor_prefix(cls, c, (k - 1) as nat, m);
    }
}

/// `reaches` says `sup` is one of the first `fuel` steps up from `c`.
proof fn lemma_reaches_steps(cls: Table<ClassInfo>, c: Seq<char>, sup: Seq<char>, fuel: nat)
    ensures
        reaches(cls, c, sup, fuel) <==> exists|j: nat| 1 <= j <= fuel && ancestor(cls, c, j) == Some(sup),
    decreases fuel,
{
    if fuel > 0 {
        lemma_reaches_steps(cls, c, sup, (fuel - 1) as nat);
        match base_in(cls, c) {
            Some(b) => {
                lemma_reaches_steps(cls, b, sup, (fuel - 1) as nat);
                if reaches(cls, c, sup, fuel) {
                    assert(ancestor(cls, c, 0) == Some(c));
                    assert(ancestor(cls, c, 1) == Some(b));
                    if b == sup {
                    } else {
                        let j = choose|j: nat| 1 <= j <= fuel - 1 && ancestor(cls, b, j) == Some(sup);
                        lemma_ancestor_compose(cls, c, 1, j);
                        assert(ancestor(cls, c, 1 + j) == Some(sup));
                    }
                }
                if exists|j: nat| 1 <= j <= fuel && ancestor(cls, c, j) == Some(sup) {
                    let j = choose|j: nat| 1 <= j <= fuel && ancestor(cls, c, j) == Some(sup);
                    lemma_ancestor_compose(cls, c, 1, (j - 1) as nat);
                    assert(1 + (j - 1) as nat == j);
                    assert(ancestor(cls, c, 0) == Some(c));
                    assert(ancestor(cls, c, 1) == Some(b));
                    if j > 1 {
                        assert(ancestor(cls, b, (j - 1) as nat) == Some(sup));
                    }
                }
            },
            None => {
                if exists|j: nat| 1 <= j <= fuel && ancestor(cls, c, j) == Some(sup) {
                    let j = choose|j: nat| 1 <= j <= fuel && ancestor(cls, c, j) == Some(sup);
                    lemma_ancestor_compose(cls, c, 1, (j - 1) as nat);
                    assert(1 + (j - 1) as nat == j);
                    assert(ancestor(cls, c, 0) == Some(c));
                    assert(ancestor(cls, c, 1) is None);
                    lemma_ancestor_none(cls, c, 1, (j - 1) as nat);
                }
            },
        }
    }
}

/// A name reachable up the chain of bases is reachable within as many steps
/// as there are classes and one more: past that the chain only repeats.
pub proof fn lemma_ancestor_within_bound(cls: Table<ClassInfo>, c: Seq<char>, k: nat, b: Seq<char>)
    requires
        k >= 1,
        ancestor(cls, c, k) == Some(b),
    ensures
        exists|j: nat| 1 <= j <= cls.entries().len() + 1 && ancestor(cls, c, j) == Some(b),
    decreases k,
{
    let n = cls.entries().len();
    if k <= n + 1 {
        return;
    }
    let s = Seq::new(n + 1, |i: int| ancestor(cls, c, i as nat)->Some_0);
    assert forall|i: int| 0 <= i < s.len() implies #[trigger] super::table::has_of(cls.entries(), s[i]) by {
        lemma_ancestor_prefix(cls, c, k, i as nat);
    }
    if s.no_duplicates() {
        lemma_distinct_keys_bounded(cls.entries(), s);
        assert(false);
    }
    let (i, j) = choose|i: int, j: int| 0 <= i < s.len() && 0 <= j < s.len() && i != j && s[i] == s[j];
    let (lo, hi) = if i < j { (i, j) } else { (j, i) };
    lemma_ancestor_prefix(cls, c, k, lo as nat);
    lemma_ancestor_prefix(cls, c, k, hi as nat);
    let p = (hi - lo) as nat;
    let t = (k - hi) as nat;
    lemma_ancestor_compose(cls, c, hi as nat, t);
    lemma_ancestor_compose(cls, c, lo as nat, t);
    assert(hi as nat + t == k);
    assert(ancestor(cls, c, (lo + t) as nat) == Some(b));
    lemma_ancestor_within_bound(cls, c, (lo + t) as nat, b);
}

/// The checker's walk up the bases finds every ancestor, however far up.
pub proof fn law_class_walk_complete(ck: Checker, c: Seq<char>, sup: Seq<char>, k: nat)
    requires
        k >= 1,
        ck.ancestor(c, k) == Some(sup),
    ensures
        ck.reaches(c, sup, ck.chain_fuel()),
{
    lemma_ancestor_within_bound(ck.classes, c, k, sup);
    lemma_reaches_steps(ck.classes, c, sup, ck.chain_fuel());
}

/// `cyclic` for `fuel` steps is the chain lasting that long.
proof fn lemma_cyclic_steps(cls: Table<ClassInfo>, c: Seq<char>, fuel: nat)
    ensures
        cyclic(cls, c, fuel) == (ancestor(cls, c, fuel) is Some),
    decreases fuel,
{
    if fuel > 0 {
        assert(ancestor(cls, c, 0) == Some(c));
        lemma_ancestor_compose(cls, c, 1, (fuel - 1) as nat);
        assert(1 + (fuel - 1) as nat == fuel);
        match base_in(cls, c) {
            Some(b) => {
                assert(ancestor(cls, c, 1) == Some(b));
                lemma_cyclic_steps(cls, b, (fuel - 1) as nat);
            },
            None => {
                assert(ancestor(cls, c, 1) is None);
                lemma_ancestor_none(cls, c, 1, (fuel - 1) as nat);
            },
        }
    }
}

/// A chain that lasts one step longer than there are classes lasts forever.
proof fn lemma_ancestor_all_some(cls: Table<ClassInfo>, c: Seq<char>, k: nat)
    requires
        ancestor(cls, c, cls.entries().len() + 1) is Some,
    ensures
        ancestor(cls, c, k) is Some,
    decreases k,
{
    let n = cls.entries().len();
    if k <= n + 1 {
        if k < n + 1 {
            lemma_ancestor_prefix(cls, c, n + 1, k);
        }
        return;
    }
    let s = Seq::new(n + 1, |i: int| ancestor(cls, c, i as nat)->Some_0);
    assert forall|i: int| 0 <= i < s.len() implies #[trigger] super::table::has_of(cls.entries(), s[i]) by {
        lemma_ancestor_prefix(cls, c, n + 1, i as nat);
    }
    if s.no_duplicates() {
        lemma_distinct_keys_bounded(cls.entries(), s);
        assert(false);
    }
    let (i, j) = choose|i: int, j: int| 0 <= i < s.len() && 0 <= j < s.len() && i != j && s[i] == s[j];
    let (lo, hi) = if i < j { (i, j) } else { (j, i) };
    lemma_ancestor_prefix(cls, c, n + 1, lo as nat);
    lemma_ancestor_prefix(cls, c, n + 1, hi as nat);
    let t = (k - hi) as nat;
    lemma_ancestor_compose(cls, c, hi as nat, t);
    lemma_ancestor_compose(cls, c, lo as nat, t);
    assert(hi as nat + t == k);
    lemma_ancestor_all_some(cls, c, (lo + t) as nat);
}

/// The checker reports a class as circular exactly when its chain of bases
/// never ends.
pub proof fn law_cycle_detection_exact(ck: Checker, c: Seq<char>)
    ensures
        ck.cyclic(c, ck.chain_fuel()) <==> forall|k: nat| #[trigger] ck.ancestor(c, k) is Some,
{
    lemma_cyclic_steps(ck.classes, c, ck.chain_fuel());
    if ck.cyclic(c, ck.chain_fuel()) {
        assert forall|k: nat| #[trigger] ck.ancestor(c, k) is Some by {
            lemma_ancestor_all_some(ck.classes, c, k);
        }
    }
    if forall|k: nat| #[trigger] ck.ancestor(c, k) is Some {
        assert(ck.ancestor(c, ck.chain_fuel()) is Some);
    }
}

/// Class inheritance is transitive: a class below one below a third is below
/// the third (Object, the root, having no base).
pub proof fn law_class_sub_transitive(ck: Checker, a: Seq<char>, b: Seq<char>, c: Seq<char>)
    requires
        ck.base_of("Object"@) is None,
        ck.class_sub(a, b),
        ck.class_sub(b, c),
    ensures
        ck.class_sub(a, c),
{
    let cls = ck.classes;
    let f = cls.entries().len() + 1;
    if a == b || b == c || c == "Object"@ {
        return;
    }
    if b == "Object"@ {
        assert(!reaches(cls, b, c, f));
        return;
    }
    lemma_reaches_steps(cls, a, b, f);
    lemma_reaches_steps(cls, b, c, f);
    lemma_reaches_steps(cls, a, c, f);
    if a == c {
        return;
    }
    if reaches(cls, a, b, f) && reaches(cls, b, c, f) {
        let j1 = choose|j: nat| 1 <= j <= f && ancestor(cls, a, j) == Some(b);
        let j2 = choose|j: nat| 1 <= j <= f && ancestor(cls, b, j) == Some(c);
        lemma_ancestor_compose(cls, a, j1, j2);
        lemma_ancestor_within_bound(cls, a, j1 + j2, c);
    }
}

/// The type of `l op r` is fixed by the operator, whatever the operands:
/// arithmetic gives Number, concatenation gives String, and every comparison
/// (`<`, `<=`, `>`, `>=`, `==`, `!=`) and logical operator gives Boolean.
pub proof fn law_binary_result_type(c: Ctx, e: ExprS, f: Seq<Seq<(Seq<char>, TypeV)>>)
    requires
        e.node is Binary,
    ensures
        ({
            let op = e.node->Binary_op;
            &&& (op is Lt || op is Le || op is Gt || op is Ge || op is Eq || op is Ne || op is And || op is Or)
                ==> ty_of(c, e, f) == TypeV::Boolean
            &&& (op is Add || op is Sub || op is Mul || op is Div || op is Mod || op is Pow) ==> ty_of(c, e, f)
                == TypeV::Number
            &&& (op is Concat || op is ConcatSpace) ==> ty_of(c, e, f) == TypeV::Str
        }),
{
}

/// A comparison or logical expression used as the condition of `if`, `elif`
/// or `while` is a Boolean: the condition reports no error beyond those of
/// its operands.
pub proof fn law_comparison_is_a_condition(c: Ctx, cond: ExprS, f: Seq<Seq<(Seq<char>, TypeV)>>, span: Span)
    requires
        cond.node matches Expr::Binary { op, .. } && (op is Lt || op is Le || op is Gt || op is Ge || op is Eq
            || op is Ne || op is And || op is Or),
    ensures
        cond_errs(c, cond, f, span) == errs_of(c, cond, f),
{
    law_binary_result_type(c, cond, f);
    assert(cond_errs(c, cond, f, span) =~= errs_of(c, cond, f));
}

/// What the operands of a binary operator must be: arithmetic and ordering
/// take two Numbers (a String operand is reported), logical operators take
/// two Booleans (a Number operand is reported), and `==` and `!=` take
/// anything.
pub proof fn law_binary_operands(
    cls: Table<ClassInfo>,
    ps: Table<ProtocolInfo>,
    op: BinaryOp,
    l: TypeV,
    r: TypeV,
    span: Span,
)
    ensures
        ({
            let es = binary_errors_in(cls, ps, op, l, r, span);
            let numeric = op is Add || op is Sub || op is Mul || op is Div || op is Mod || op is Pow || op is Lt
                || op is Le || op is Gt || op is Ge;
            &&& numeric && l == TypeV::Number && r == TypeV::Number ==> es.len() == 0
            &&& numeric && (l == TypeV::Str || r == TypeV::Str) ==> es.len() >= 1
            &&& (op is And || op is Or) && l == TypeV::Boolean && r == TypeV::Boolean ==> es.len() == 0
            &&& (op is And || op is Or) && (l == TypeV::Number || r == TypeV::Number) ==> es.len() >= 1
            &&& (op is Eq || op is Ne) ==> es.len() == 0
        }),
{
}

/// Negation gives a Number and `!` a Boolean, whatever the operand.
pub proof fn law_unary_result_type(c: Ctx, e: ExprS, f: Seq<Seq<(Seq<char>, TypeV)>>)
    requires
        e.node is Unary,
    ensures
        e.node->Unary_op is Neg ==> ty_of(c, e, f) == TypeV::Number,
        e.node->Unary_op is Not ==> ty_of(c, e, f) == TypeV::Boolean,
{
}

} // verus!

