//! The syntax tree produced by the parser.
use vstd::prelude::*;
pub use crate::lexer::Span;

verus! {

/// A node with the stretch of source it was parsed from.
#[derive(Debug, Clone, PartialEq)]
pub struct Spanned<T> {
    pub node: T,
    pub span: Span,
}

impl<T> Spanned<T> {
    pub fn new(node: T, span: Span) -> (r: Self)
        ensures
            r.node == node,
            r.span == span,
    {
        Spanned { node, span }
    }

    /// Transforms the node and keeps the span.
    pub fn map<U, F: FnOnce(T) -> U>(self, f: F) -> (r: Spanned<U>)
        requires
            f.requires((self.node,)),
        ensures
            r.span == self.span,
            f.ensures((self.node,), r.node),
    {
        let span = self.span;
        Spanned { node: f(self.node), span }
    }
}

/// Type annotations as written.
#[derive(Debug, PartialEq)]
pub enum TypeExpr {
    Named(String),
    Array(Box<TypeExpr>),
    /// `T*`: an iterable of `T`.
    Iterable(Box<TypeExpr>),
    /// `(T1, T2, ...) -> R`
    Function { params: Vec<TypeExpr>, ret: Box<TypeExpr> },
}

#[derive(Debug, Clone, Copy, PartialEq, Eq, Structural)]
pub enum UnaryOp {
    Neg,
    Not,
}

#[derive(Debug, Clone, Copy, PartialEq, Eq, Structural)]
pub enum BinaryOp {
    Add,
    Sub,
    Mul,
    Div,
    Mod,
    Pow,
    Concat,
    ConcatSpace,
    Eq,
    Ne,
    Lt,
    Le,
    Gt,
    Ge,
    And,
    Or,
}

pub type ExprS = Spanned<Expr>;

/// Expressions. A number literal keeps its source text.
#[derive(Debug, PartialEq)]
pub enum Expr {
    Number(String),
    Bool(bool),
    Str(String),
    Null,
    Var(String),
    Self_,
    Unary { op: UnaryOp, operand: Box<ExprS> },
    Binary { op: BinaryOp, left: Box<ExprS>, right: Box<ExprS> },
    Assign { target: Box<ExprS>, value: Box<ExprS> },
    Let { bindings: Vec<Binding>, body: Box<ExprS> },
    If {
        cond: Box<ExprS>,
        then: Box<ExprS>,
        elif_branches: Vec<(ExprS, ExprS)>,
        else_branch: Option<Box<ExprS>>,
    },
    While { cond: Box<ExprS>, body: Box<ExprS> },
    Block(Vec<ExprS>),
    Call { callee: String, args: Vec<ExprS> },
    MethodCall { object: Box<ExprS>, method: String, args: Vec<ExprS> },
    FieldAccess { object: Box<ExprS>, field: String },
    Index { array: Box<ExprS>, index: Box<ExprS> },
    New { ty_name: String, args: Vec<ExprS> },
    NewArray { ty_name: String, size: Box<ExprS>, init: Option<Box<ExprS>> },
    Case { expr: Box<ExprS>, arms: Vec<CaseArm> },
    With { expr: Box<ExprS>, binding: String, body: Box<ExprS>, fallback: Box<ExprS> },
    For { var: String, iter: Box<ExprS>, body: Box<ExprS> },
    IsInstance { expr: Box<ExprS>, ty_name: String },
    Cast { expr: Box<ExprS>, ty_name: String },
    VecLit { elements: Vec<ExprS> },
    VecComp { body: Box<ExprS>, var: String, iter: Box<ExprS> },
    Base { args: Vec<ExprS> },
    Lambda { params: Vec<Param>, body: Box<ExprS> },
    MacroArgRef(String),
    MacroArgName(String),
    MacroMatch { subject: Box<ExprS>, cases: Vec<(ExprS, ExprS)>, default_body: Box<ExprS> },
}

#[derive(Debug, PartialEq)]
pub struct Binding {
    pub name: String,
    pub type_ann: Option<TypeExpr>,
    pub init: ExprS,
    pub span: Span,
}

#[derive(Debug, PartialEq)]
pub struct CaseArm {
    pub binding: String,
    pub type_ann: TypeExpr,
    pub body: ExprS,
    pub span: Span,
}

#[derive(Debug, PartialEq)]
pub struct Param {
    pub name: String,
    pub type_ann: Option<TypeExpr>,
    pub span: Span,
}

#[derive(Debug, Clone, PartialEq)]
pub struct FunctionDecl {
    pub name: String,
    pub params: Vec<Param>,
    pub return_type: Option<TypeExpr>,
    pub body: ExprS,
    pub span: Span,
}

#[derive(Debug, Clone, PartialEq)]
pub struct ClassDecl {
    pub name: String,
    pub ctor_params: Vec<Param>,
    pub base: Option<String>,
    pub members: Vec<ClassMember>,
    pub span: Span,
}

#[derive(Debug, Clone, PartialEq)]
pub enum ClassMember {
    Attribute { name: String, init: ExprS, span: Span },
    Method { name: String, params: Vec<Param>, return_type: Option<TypeExpr>, body: ExprS, span: Span },
}

#[derive(Debug, Clone, PartialEq)]
pub struct ProtocolDecl {
    pub name: String,
    pub extends: Vec<String>,
    pub methods: Vec<ProtocolMethod>,
    pub span: Span,
}

#[derive(Debug, Clone, PartialEq)]
pub struct ProtocolMethod {
    pub name: String,
    pub params: Vec<Param>,
    pub return_type: Option<TypeExpr>,
}

#[derive(Debug, Clone, Copy, PartialEq, Eq, Structural)]
pub enum MacroParamKind {
    /// A value parameter.
    Value,
    /// `@p`: the caller's variable itself.
    ByRef,
    /// `*p`: the argument expression, re-evaluated at each use.
    ByName,
    /// `$p`: the caller's variable name.
    VarName,
}

#[derive(Debug, Clone, PartialEq)]
pub struct MacroParam {
    pub name: String,
    pub kind: MacroParamKind,
    pub type_ann: Option<TypeExpr>,
    pub span: Span,
}

#[derive(Debug, Clone, PartialEq)]
pub struct MacroDecl {
    pub name: String,
    pub params: Vec<MacroParam>,
    pub body: ExprS,
    pub span: Span,
}

/// A parsed program: declarations, and the entry expression if any.
#[derive(Debug, Clone, PartialEq, Default)]
pub struct Program {
    pub functions: Vec<FunctionDecl>,
    pub classes: Vec<ClassDecl>,
    pub protocols: Vec<ProtocolDecl>,
    pub macros: Vec<MacroDecl>,
    pub entry: Option<ExprS>,
}

impl BinaryOp {
    /// The name of the operator as its derived `Debug` writes it.
    pub open spec fn spec_debug_name(&self) -> Seq<char> {
        match self {
            BinaryOp::Add => "Add"@,
            BinaryOp::Sub => "Sub"@,
            BinaryOp::Mul => "Mul"@,
            BinaryOp::Div => "Div"@,
            BinaryOp::Mod => "Mod"@,
            BinaryOp::Pow => "Pow"@,
            BinaryOp::Concat => "Concat"@,
            BinaryOp::ConcatSpace => "ConcatSpace"@,
            BinaryOp::Eq => "Eq"@,
            BinaryOp::Ne => "Ne"@,
            BinaryOp::Lt => "Lt"@,
            BinaryOp::Le => "Le"@,
            BinaryOp::Gt => "Gt"@,
            BinaryOp::Ge => "Ge"@,
            BinaryOp::And => "And"@,
            BinaryOp::Or => "Or"@,
        }
    }

    pub fn debug_name(&self) -> (r: String)
        ensures
            r@ == self.spec_debug_name(),
    {
        let s = match self {
            BinaryOp::Add => "Add",
            BinaryOp::Sub => "Sub",
            BinaryOp::Mul => "Mul",
            BinaryOp::Div => "Div",
            BinaryOp::Mod => "Mod",
            BinaryOp::Pow => "Pow",
            BinaryOp::Concat => "Concat",
            BinaryOp::ConcatSpace => "ConcatSpace",
            BinaryOp::Eq => "Eq",
            BinaryOp::Ne => "Ne",
            BinaryOp::Lt => "Lt",
            BinaryOp::Le => "Le",
            BinaryOp::Gt => "Gt",
            BinaryOp::Ge => "Ge",
            BinaryOp::And => "And",
            BinaryOp::Or => "Or",
        };
        s.to_owned()
    }
}

/// `b` is `a` written again: same shape and names.
pub open spec fn same_type(a: TypeExpr, b: TypeExpr) -> bool
    decreases a,
{
    match (a, b) {
        (TypeExpr::Named(x), TypeExpr::Named(y)) => x@ == y@,
        (TypeExpr::Array(x), TypeExpr::Array(y)) => same_type(*x, *y),
        (TypeExpr::Iterable(x), TypeExpr::Iterable(y)) => same_type(*x, *y),
        (TypeExpr::Function { params: p1, ret: r1 }, TypeExpr::Function { params: p2, ret: r2 }) => {
            &&& p1@.len() == p2@.len()
            &&& forall|i: int| 0 <= i < p1@.len() ==> same_type(p1@[i], p2@[i])
            &&& same_type(*r1, *r2)
        },
        _ => false,
    }
}

/// Both absent, or both present and the same.
pub open spec fn same_type_opt(a: Option<TypeExpr>, b: Option<TypeExpr>) -> bool {
    match (a, b) {
        (Some(x), Some(y)) => same_type(x, y),
        (None, None) => true,
        _ => false,
    }
}

/// A judgment on a pair of expressions that overrides the structural
/// comparison, where it has something to say.
pub open spec fn no_leaf() -> spec_fn(ExprS, ExprS) -> Option<bool> {
    |x: ExprS, y: ExprS| None::<bool>
}

/// `r` has the shape of `e`: same spans, variants, names and literals, and
/// related parts, except where `leaf` judges a pair itself.
pub open spec fn rel(e: ExprS, r: ExprS, leaf: spec_fn(ExprS, ExprS) -> Option<bool>) -> bool
    decreases e,
{
    match leaf(e, r) {
        Some(b) => b,
        None => e.span == r.span && rel_node(e.node, r.node, leaf),
    }
}

/// The nodes have the same variant and related parts.
pub open spec fn rel_node(a: Expr, b: Expr, leaf: spec_fn(ExprS, ExprS) -> Option<bool>) -> bool
    decreases a,
{
    match (a, b) {
        (Expr::Number(x), Expr::Number(y)) => x@ == y@,
        (Expr::Bool(x), Expr::Bool(y)) => x == y,
        (Expr::Str(x), Expr::Str(y)) => x@ == y@,
        (Expr::Null, Expr::Null) => true,
        (Expr::Var(x), Expr::Var(y)) => x@ == y@,
        (Expr::Self_, Expr::Self_) => true,
        (Expr::Unary { op: o1, operand: x }, Expr::Unary { op: o2, operand: y }) => o1 == o2 && rel(*x, *y, leaf),
        (Expr::Binary { op: o1, left: l1, right: r1 }, Expr::Binary { op: o2, left: l2, right: r2 }) => o1 == o2
            && rel(*l1, *l2, leaf) && rel(*r1, *r2, leaf),
        (Expr::Assign { target: t1, value: v1 }, Expr::Assign { target: t2, value: v2 }) => rel(*t1, *t2, leaf) && rel(
            *v1,
            *v2,
            leaf,
        ),
        (Expr::Let { bindings: b1, body: d1 }, Expr::Let { bindings: b2, body: d2 }) => {
            &&& b1@.len() == b2@.len()
            &&& forall|i: int|
                0 <= i < b1@.len() ==> b1@[i].name@ == b2@[i].name@ && b1@[i].span == b2@[i].span && same_type_opt(b1@[i].type_ann, b2@[i].type_ann) && rel(b1@[i].init, b2@[i].init, leaf)
            &&& rel(*d1, *d2, leaf)
        },
        (
            Expr::If { cond: c1, then: t1, elif_branches: e1, else_branch: x1 },
            Expr::If { cond: c2, then: t2, elif_branches: e2, else_branch: x2 },
        ) => {
            &&& rel(*c1, *c2, leaf)
            &&& rel(*t1, *t2, leaf)
            &&& e1@.len() == e2@.len()
            &&& forall|i: int|
                0 <= i < e1@.len() ==> rel(e1@[i].0, e2@[i].0, leaf) && rel(e1@[i].1, e2@[i].1, leaf)
            &&& match (x1, x2) {
                (Some(p), Some(q)) => rel(*p, *q, leaf),
                (None, None) => true,
                _ => false,
            }
        },
        (Expr::While { cond: c1, body: d1 }, Expr::While { cond: c2, body: d2 }) => rel(*c1, *c2, leaf) && rel(
            *d1,
            *d2,
            leaf,
        ),
        (Expr::Block(s1), Expr::Block(s2)) => s1@.len() == s2@.len() && forall|i: int|
            0 <= i < s1@.len() ==> rel(s1@[i], s2@[i], leaf),
        (Expr::Call { callee: c1, args: a1 }, Expr::Call { callee: c2, args: a2 }) => c1@ == c2@ && a1@.len()
            == a2@.len() && forall|i: int| 0 <= i < a1@.len() ==> rel(a1@[i], a2@[i], leaf),
        (
            Expr::MethodCall { object: o1, method: m1, args: a1 },
            Expr::MethodCall { object: o2, method: m2, args: a2 },
        ) => rel(*o1, *o2, leaf) && m1@ == m2@ && a1@.len() == a2@.len() && forall|i: int|
            0 <= i < a1@.len() ==> rel(a1@[i], a2@[i], leaf),
        (Expr::FieldAccess { object: o1, field: f1 }, Expr::FieldAccess { object: o2, field: f2 }) => rel(
            *o1,
            *o2,
            leaf,
        ) && f1@ == f2@,
        (Expr::Index { array: x1, index: i1 }, Expr::Index { array: x2, index: i2 }) => rel(*x1, *x2, leaf) && rel(
            *i1,
            *i2,
            leaf,
        ),
        (Expr::New { ty_name: n1, args: a1 }, Expr::New { ty_name: n2, args: a2 }) => n1@ == n2@ && a1@.len()
            == a2@.len() && forall|i: int| 0 <= i < a1@.len() ==> rel(a1@[i], a2@[i], leaf),
        (
            Expr::NewArray { ty_name: n1, size: z1, init: i1 },
            Expr::NewArray { ty_name: n2, size: z2, init: i2 },
        ) => n1@ == n2@ && rel(*z1, *z2, leaf) && match (i1, i2) {
            (Some(p), Some(q)) => rel(*p, *q, leaf),
            (None, None) => true,
            _ => false,
        },
        (Expr::Case { expr: x1, arms: r1 }, Expr::Case { expr: x2, arms: r2 }) => {
            &&& rel(*x1, *x2, leaf)
            &&& r1@.len() == r2@.len()
            &&& forall|i: int|
                0 <= i < r1@.len() ==> r1@[i].binding@ == r2@[i].binding@ && r1@[i].span == r2@[i].span && same_type(
                    r1@[i].type_ann,
                    r2@[i].type_ann,
                ) && rel(r1@[i].body, r2@[i].body, leaf)
        },
        (
            Expr::With { expr: x1, binding: n1, body: d1, fallback: f1 },
            Expr::With { expr: x2, binding: n2, body: d2, fallback: f2 },
        ) => rel(*x1, *x2, leaf) && n1@ == n2@ && rel(*d1, *d2, leaf) && rel(*f1, *f2, leaf),
        (Expr::For { var: v1, iter: i1, body: d1 }, Expr::For { var: v2, iter: i2, body: d2 }) => v1@ == v2@ && rel(
            *i1,
            *i2,
            leaf,
        ) && rel(*d1, *d2, leaf),
        (Expr::IsInstance { expr: x1, ty_name: n1 }, Expr::IsInstance { expr: x2, ty_name: n2 }) => rel(
            *x1,
            *x2,
            leaf,
        ) && n1@ == n2@,
        (Expr::Cast { expr: x1, ty_name: n1 }, Expr::Cast { expr: x2, ty_name: n2 }) => rel(*x1, *x2, leaf) && n1@
            == n2@,
        (Expr::VecLit { elements: s1 }, Expr::VecLit { elements: s2 }) => s1@.len() == s2@.len() && forall|i: int|
            0 <= i < s1@.len() ==> rel(s1@[i], s2@[i], leaf),
        (Expr::VecComp { body: d1, var: v1, iter: i1 }, Expr::VecComp { body: d2, var: v2, iter: i2 }) => rel(
            *d1,
            *d2,
            leaf,
        ) && v1@ == v2@ && rel(*i1, *i2, leaf),
        (Expr::Base { args: a1 }, Expr::Base { args: a2 }) => a1@.len() == a2@.len() && forall|i: int|
            0 <= i < a1@.len() ==> rel(a1@[i], a2@[i], leaf),
        (Expr::Lambda { params: p1, body: d1 }, Expr::Lambda { params: p2, body: d2 }) => p1@.len() == p2@.len()
            && (forall|i: int|
            0 <= i < p1@.len() ==> p1@[i].name@ == p2@[i].name@ && same_type_opt(p1@[i].type_ann, p2@[i].type_ann))
            && rel(*d1, *d2, leaf),
        (Expr::MacroArgRef(x), Expr::MacroArgRef(y)) => x@ == y@,
        (Expr::MacroArgName(x), Expr::MacroArgName(y)) => x@ == y@,
        (
            Expr::MacroMatch { subject: s1, cases: c1, default_body: d1 },
            Expr::MacroMatch { subject: s2, cases: c2, default_body: d2 },
        ) => {
            &&& rel(*s1, *s2, leaf)
            &&& c1@.len() == c2@.len()
            &&& forall|i: int|
                0 <= i < c1@.len() ==> rel(c1@[i].0, c2@[i].0, leaf) && rel(c1@[i].1, c2@[i].1, leaf)
            &&& rel(*d1, *d2, leaf)
        },
        _ => false,
    }
}

/// `b` is an exact copy of `a`.
pub open spec fn same_expr(a: ExprS, b: ExprS) -> bool {
    rel(a, b, no_leaf())
}

impl TypeExpr {
    /// A copy.
    #[verifier::loop_isolation(false)]
    pub fn copy(&self) -> (r: Self)
        ensures
            same_type(*self, r),
        decreases self,
    {
        match self {
            TypeExpr::Named(n) => TypeExpr::Named(n.clone()),
            TypeExpr::Array(inner) => TypeExpr::Array(Box::new(inner.copy())),
            TypeExpr::Iterable(inner) => TypeExpr::Iterable(Box::new(inner.copy())),
            TypeExpr::Function { params, ret } => {
                let mut ps: Vec<TypeExpr> = Vec::new();
                let mut i: usize = 0;
                while i < params.len()
                    invariant
                        i <= params.len(),
                        ps@.len() == i,
                        forall|k: int| 0 <= k < i ==> same_type(#[trigger] params@[k], ps@[k]),
                    decreases params.len() - i,
                {
                    proof {
                        assert(decreases_to!(params@ => params@[i as int]));
                        assert(decreases_to!(*params => params@));
                    }
                    let c = params[i].copy();
                    let ghost before = ps@;
                    ps.push(c);
                    proof {
                        assert forall|k: int| 0 <= k < i + 1 implies same_type(#[trigger] params@[k], ps@[k]) by {
                            if k < i {
                                assert(ps@[k] == before[k]);
                            }
                        }
                    }
                    i += 1;
                }
                TypeExpr::Function { params: ps, ret: Box::new(ret.copy()) }
            },
        }
    }
}

impl TypeExpr {
    /// The name a value's type is matched against at run time: a named
    /// type's own name; arrays and iterables are `Array`, functions `Function`.
    pub open spec fn spec_ty_name(&self) -> Seq<char> {
        match self {
            TypeExpr::Named(n) => n@,
            TypeExpr::Array(_) => "Array"@,
            TypeExpr::Iterable(_) => "Array"@,
            TypeExpr::Function { .. } => "Function"@,
        }
    }

    pub fn ty_name(&self) -> (r: &str)
        ensures
            r@ == self.spec_ty_name(),
    {
        match self {
            TypeExpr::Named(n) => n.as_str(),
            TypeExpr::Array(_) => "Array",
            TypeExpr::Iterable(_) => "Array",
            TypeExpr::Function { .. } => "Function",
        }
    }
}

impl Clone for TypeExpr {
    fn clone(&self) -> Self {
        self.copy()
    }
}

/// A copy of each element.
pub fn copy_exprs(v: &Vec<ExprS>) -> (r: Vec<ExprS>)
    ensures
        r@.len() == v@.len(),
        forall|i: int| 0 <= i < v@.len() ==> same_expr(#[trigger] v@[i], r@[i]),
    decreases v,
{
    let mut out: Vec<ExprS> = Vec::new();
    let mut i: usize = 0;
    while i < v.len()
        invariant
            i <= v.len(),
            out@.len() == i,
            forall|k: int| 0 <= k < i ==> same_expr(#[trigger] v@[k], out@[k]),
        decreases v.len() - i,
    {
        proof {
            assert(decreases_to!(v@ => v@[i as int]));
            assert(decreases_to!(*v => v@));
        }
        out.push(v[i].copy());
        i += 1;
    }
    out
}

/// A copy of each pair.
pub fn copy_pairs(v: &Vec<(ExprS, ExprS)>) -> (r: Vec<(ExprS, ExprS)>)
    ensures
        r@.len() == v@.len(),
        forall|i: int| 0 <= i < v@.len() ==> same_expr(#[trigger] v@[i].0, r@[i].0) && same_expr(v@[i].1, r@[i].1),
    decreases v,
{
    let mut out: Vec<(ExprS, ExprS)> = Vec::new();
    let mut i: usize = 0;
    while i < v.len()
        invariant
            i <= v.len(),
            out@.len() == i,
            forall|k: int| 0 <= k < i ==> same_expr(#[trigger] v@[k].0, out@[k].0) && same_expr(v@[k].1, out@[k].1),
        decreases v.len() - i,
    {
        proof {
            assert(decreases_to!(v@ => v@[i as int]));
            assert(decreases_to!(*v => v@));
        }
        let a = v[i].0.copy();
        let b = v[i].1.copy();
        let ghost before = out@;
        out.push((a, b));
        proof {
            assert forall|k: int| 0 <= k < i + 1 implies same_expr(#[trigger] v@[k].0, out@[k].0) && same_expr(v@[k].1, out@[k].1) by {
                if k < i {
                    assert(out@[k] == before[k]);
                }
            }
        }
        i += 1;
    }
    out
}

pub fn copy_type_opt(t: &Option<TypeExpr>) -> (r: Option<TypeExpr>)
    ensures
        same_type_opt(*t, r),
{
    match t {
        Some(x) => Some(x.copy()),
        None => None,
    }
}

pub fn copy_params(v: &Vec<Param>) -> (r: Vec<Param>)
    ensures
        r@.len() == v@.len(),
        forall|i: int|
            0 <= i < v@.len() ==> #[trigger] r@[i].name == v@[i].name && same_type_opt(v@[i].type_ann, r@[i].type_ann)
                && r@[i].span == v@[i].span,
{
    let mut out: Vec<Param> = Vec::new();
    let mut i: usize = 0;
    while i < v.len()
        invariant
            i <= v.len(),
            out@.len() == i,
            forall|k: int|
                0 <= k < i ==> #[trigger] out@[k].name == v@[k].name && same_type_opt(v@[k].type_ann, out@[k].type_ann)
                    && out@[k].span == v@[k].span,
        decreases v.len() - i,
    {
        let c = v[i].copy();
        let ghost before = out@;
        out.push(c);
        proof {
            assert forall|k: int|
                0 <= k < i + 1 implies #[trigger] out@[k].name == v@[k].name && same_type_opt(
                    v@[k].type_ann,
                    out@[k].type_ann,
                ) && out@[k].span == v@[k].span by {
                if k < i {
                    assert(out@[k] == before[k]);
                }
            }
        }
        i += 1;
    }
    out
}

/// `b` holds a copy of each parameter of `a`, in order.
pub open spec fn same_params(a: Seq<Param>, b: Seq<Param>) -> bool {
    &&& a.len() == b.len()
    &&& forall|i: int|
        0 <= i < a.len() ==> #[trigger] b[i].name == a[i].name && same_type_opt(a[i].type_ann, b[i].type_ann)
            && b[i].span == a[i].span
}

/// `b` is a copy of the class member `a`.
pub open spec fn same_member(a: ClassMember, b: ClassMember) -> bool {
    match (a, b) {
        (
            ClassMember::Attribute { name: n1, init: i1, span: s1 },
            ClassMember::Attribute { name: n2, init: i2, span: s2 },
        ) => n2 == n1 && same_expr(i1, i2) && s2 == s1,
        (
            ClassMember::Method { name: n1, params: p1, return_type: r1, body: b1, span: s1 },
            ClassMember::Method { name: n2, params: p2, return_type: r2, body: b2, span: s2 },
        ) => n2 == n1 && same_params(p1@, p2@) && same_type_opt(r1, r2) && same_expr(b1, b2) && s2 == s1,
        _ => false,
    }
}

/// `b` is a copy of the class declaration `a`.
pub open spec fn same_class(a: ClassDecl, b: ClassDecl) -> bool {
    &&& b.name == a.name
    &&& same_params(a.ctor_params@, b.ctor_params@)
    &&& b.base == a.base
    &&& b.members@.len() == a.members@.len()
    &&& forall|i: int| 0 <= i < a.members@.len() ==> same_member(#[trigger] a.members@[i], b.members@[i])
    &&& b.span == a.span
}

impl ClassMember {
    /// A copy.
    pub fn copy(&self) -> (r: Self)
        ensures
            same_member(*self, r),
    {
        match self {
            ClassMember::Attribute { name, init, span } => ClassMember::Attribute {
                name: name.clone(),
                init: init.copy(),
                span: *span,
            },
            ClassMember::Method { name, params, return_type, body, span } => ClassMember::Method {
                name: name.clone(),
                params: copy_params(params),
                return_type: copy_type_opt(return_type),
                body: body.copy(),
                span: *span,
            },
        }
    }
}

impl ClassDecl {
    /// A copy.
    pub fn copy(&self) -> (r: Self)
        ensures
            same_class(*self, r),
    {
        let mut members: Vec<ClassMember> = Vec::new();
        let mut i: usize = 0;
        while i < self.members.len()
            invariant
                i <= self.members@.len(),
                members@.len() == i,
                forall|k: int| 0 <= k < i ==> same_member(#[trigger] self.members@[k], members@[k]),
            decreases self.members.len() - i,
        {
            let m = self.members[i].copy();
            let ghost before = members@;
            members.push(m);
            proof {
                assert forall|k: int| 0 <= k < i + 1 implies same_member(#[trigger] self.members@[k], members@[k]) by {
                    if k < i {
                        assert(members@[k] == before[k]);
                    }
                }
            }
            i += 1;
        }
        let base = match &self.base {
            Some(b) => Some(b.clone()),
            None => None,
        };
        ClassDecl { name: self.name.clone(), ctor_params: copy_params(&self.ctor_params), base, members, span: self.span }
    }
}

impl Param {
    pub fn copy(&self) -> (r: Self)
        ensures
            r.name == self.name,
            r.span == self.span,
            same_type_opt(self.type_ann, r.type_ann),
    {
        Param { name: self.name.clone(), type_ann: copy_type_opt(&self.type_ann), span: self.span }
    }
}

impl Spanned<Expr> {
    /// A copy.
    pub fn copy(&self) -> (r: Self)
        ensures
            r.span == self.span,
            same_expr(*self, r),
        decreases self,
    {
        Spanned { node: self.node.copy(), span: self.span }
    }
}

impl Expr {
    /// A copy.
    #[verifier::loop_isolation(false)]
    pub fn copy(&self) -> (r: Self)
        ensures
            rel_node(*self, r, no_leaf()),
        decreases self,
    {
        match self {
            Expr::Number(n) => Expr::Number(n.clone()),
            Expr::Bool(b) => Expr::Bool(*b),
            Expr::Str(t) => Expr::Str(t.clone()),
            Expr::Null => Expr::Null,
            Expr::Var(n) => Expr::Var(n.clone()),
            Expr::Self_ => Expr::Self_,
            Expr::Unary { op, operand } => Expr::Unary { op: *op, operand: Box::new(operand.copy()) },
            Expr::Binary { op, left, right } => Expr::Binary {
                op: *op,
                left: Box::new(left.copy()),
                right: Box::new(right.copy()),
            },
            Expr::Assign { target, value } => Expr::Assign {
                target: Box::new(target.copy()),
                value: Box::new(value.copy()),
            },
            Expr::Let { bindings, body } => {
                let mut bs: Vec<Binding> = Vec::new();
                let mut i: usize = 0;
                while i < bindings.len()
                    invariant
                        i <= bindings.len(),
                        bs@.len() == i,
                        forall|k: int|
                            0 <= k < i ==> (#[trigger] bindings@[k]).name@ == bs@[k].name@ && bindings@[k].span
                                == bs@[k].span && same_type_opt(bindings@[k].type_ann, bs@[k].type_ann)
                                && same_expr(bindings@[k].init, bs@[k].init),
                    decreases bindings.len() - i,
                {
                    proof {
                        assert(decreases_to!(bindings@ => bindings@[i as int]));
                        assert(decreases_to!(*bindings => bindings@));
                    }
                    let b = &bindings[i];
                    bs.push(Binding {
                        name: b.name.clone(),
                        type_ann: copy_type_opt(&b.type_ann),
                        init: b.init.copy(),
                        span: b.span,
                    });
                    i += 1;
                }
                Expr::Let { bindings: bs, body: Box::new(body.copy()) }
            },
            Expr::If { cond, then, elif_branches, else_branch } => {
                let eb = match else_branch {
                    Some(e) => Some(Box::new(e.copy())),
                    None => None,
                };
                Expr::If {
                    cond: Box::new(cond.copy()),
                    then: Box::new(then.copy()),
                    elif_branches: copy_pairs(elif_branches),
                    else_branch: eb,
                }
            },
            Expr::While { cond, body } => Expr::While { cond: Box::new(cond.copy()), body: Box::new(body.copy()) },
            Expr::Block(stmts) => Expr::Block(copy_exprs(stmts)),
            Expr::Call { callee, args } => Expr::Call { callee: callee.clone(), args: copy_exprs(args) },
            Expr::MethodCall { object, method, args } => Expr::MethodCall {
                object: Box::new(object.copy()),
                method: method.clone(),
                args: copy_exprs(args),
            },
            Expr::FieldAccess { object, field } => Expr::FieldAccess {
                object: Box::new(object.copy()),
                field: field.clone(),
            },
            Expr::Index { array, index } => Expr::Index {
                array: Box::new(array.copy()),
                index: Box::new(index.copy()),
            },
            Expr::New { ty_name, args } => Expr::New { ty_name: ty_name.clone(), args: copy_exprs(args) },
            Expr::NewArray { ty_name, size, init } => {
                let i2 = match init {
                    Some(e) => Some(Box::new(e.copy())),
                    None => None,
                };
                Expr::NewArray { ty_name: ty_name.clone(), size: Box::new(size.copy()), init: i2 }
            },
            Expr::Case { expr, arms } => {
                let mut out: Vec<CaseArm> = Vec::new();
                let mut i: usize = 0;
                while i < arms.len()
                    invariant
                        i <= arms.len(),
                        out@.len() == i,
                        forall|k: int|
                            0 <= k < i ==> (#[trigger] arms@[k]).binding@ == out@[k].binding@ && arms@[k].span
                                == out@[k].span && same_type(arms@[k].type_ann, out@[k].type_ann) && same_expr(
                                arms@[k].body,
                                out@[k].body,
                            ),
                    decreases arms.len() - i,
                {
                    proof {
                        assert(decreases_to!(arms@ => arms@[i as int]));
                        assert(decreases_to!(*arms => arms@));
                    }
                    let a = &arms[i];
                    out.push(CaseArm {
                        binding: a.binding.clone(),
                        type_ann: a.type_ann.copy(),
                        body: a.body.copy(),
                        span: a.span,
                    });
                    i += 1;
                }
                Expr::Case { expr: Box::new(expr.copy()), arms: out }
            },
            Expr::With { expr, binding, body, fallback } => Expr::With {
                expr: Box::new(expr.copy()),
                binding: binding.clone(),
                body: Box::new(body.copy()),
                fallback: Box::new(fallback.copy()),
            },
            Expr::For { var, iter, body } => Expr::For {
                var: var.clone(),
                iter: Box::new(iter.copy()),
                body: Box::new(body.copy()),
            },
            Expr::IsInstance { expr, ty_name } => Expr::IsInstance {
                expr: Box::new(expr.copy()),
                ty_name: ty_name.clone(),
            },
            Expr::Cast { expr, ty_name } => Expr::Cast { expr: Box::new(expr.copy()), ty_name: ty_name.clone() },
            Expr::VecLit { elements } => Expr::VecLit { elements: copy_exprs(elements) },
            Expr::VecComp { body, var, iter } => Expr::VecComp {
                body: Box::new(body.copy()),
                var: var.clone(),
                iter: Box::new(iter.copy()),
            },
            Expr::Base { args } => Expr::Base { args: copy_exprs(args) },
            Expr::Lambda { params, body } => Expr::Lambda { params: copy_params(params), body: Box::new(body.copy()) },
            Expr::MacroArgRef(n) => Expr::MacroArgRef(n.clone()),
            Expr::MacroArgName(n) => Expr::MacroArgName(n.clone()),
            Expr::MacroMatch { subject, cases, default_body } => Expr::MacroMatch {
                subject: Box::new(subject.copy()),
                cases: copy_pairs(cases),
                default_body: Box::new(default_body.copy()),
            },
        }
    }
}

impl Expr {
    /// The object of a field access.
    pub fn as_field_object(&self) -> (r: Option<&ExprS>)
        ensures
            match self {
                Expr::FieldAccess { object, .. } => r == Some(&**object),
                _ => r is None,
            },
    {
        match self {
            Expr::FieldAccess { object, .. } => Some(object),
            _ => None,
        }
    }

    /// The field of a field access.
    pub fn field_name(&self) -> (r: Option<&str>)
        ensures
            match self {
                Expr::FieldAccess { field, .. } => r matches Some(f) && f@ == field@,
                _ => r is None,
            },
    {
        match self {
            Expr::FieldAccess { field, .. } => Some(field.as_str()),
            _ => None,
        }
    }
}

impl Clone for Expr {
    fn clone(&self) -> Self {
        self.copy()
    }
}

impl Clone for Param {
    fn clone(&self) -> Self {
        self.copy()
    }
}

} // verus!
