//! The syntax tree of the small expression language: integer arithmetic,
//! names and `let` statements.
use vstd::prelude::*;
use crate::text::push_str;

verus! {

#[derive(Debug, Clone, Copy, PartialEq, Eq, Structural)]
pub enum Op {
    Add,
    Sub,
    Mul,
    Div,
}

#[derive(Debug)]
pub enum Expr {
    Int(i64),
    Bool(bool),
    Ident(String),
    Binary(Box<Expr>, Op, Box<Expr>),
    /// Condition, then-branch, optional else-branch.
    If(Box<Expr>, Box<Expr>, Option<Box<Expr>>),
}

#[derive(Debug)]
pub enum Stmt {
    Let { name: String, ty: Option<Type>, expr: Expr },
    Expr(Expr),
}

#[derive(Debug, PartialEq, Eq)]
pub enum Type {
    Int,
    Bool,
    Func(Vec<Type>, Box<Type>),
}

/// A type with its parts as sequences.
pub ghost enum TypeM {
    Int,
    Bool,
    Func(Seq<TypeM>, Box<TypeM>),
}

#[derive(Debug)]
pub struct Program {
    pub stmts: Vec<Stmt>,
}

impl Program {
    /// A program with no statements.
    pub fn new() -> (p: Self)
        ensures
            p.stmts@.len() == 0,
    {
        Program { stmts: Vec::new() }
    }
}

/// The models of a list of types.
pub open spec fn models_m(ts: Seq<Type>) -> Seq<TypeM>
    decreases ts,
{
    if ts.len() == 0 {
        Seq::empty()
    } else {
        models_m(ts.subrange(0, ts.len() - 1)).push(ts[ts.len() - 1].model())
    }
}

/// `parts`, each followed by `", "` but the last.
pub open spec fn joined(parts: Seq<Seq<char>>) -> Seq<char>
    decreases parts.len(),
{
    if parts.len() == 0 {
        Seq::empty()
    } else if parts.len() == 1 {
        parts[0]
    } else {
        joined(parts.drop_last()) + ", "@ + parts.last()
    }
}

/// The texts of a list of types.
pub open spec fn texts(ts: Seq<Type>) -> Seq<Seq<char>>
    decreases ts,
{
    if ts.len() == 0 {
        Seq::empty()
    } else {
        texts(ts.subrange(0, ts.len() - 1)).push(ts[ts.len() - 1].text())
    }
}

proof fn lemma_models_len(ts: Seq<Type>)
    ensures
        models_m(ts).len() == ts.len(),
        texts(ts).len() == ts.len(),
    decreases ts.len(),
{
    if ts.len() > 0 {
        lemma_models_len(ts.subrange(0, ts.len() - 1));
    }
}

proof fn lemma_models_index(ts: Seq<Type>, i: int)
    requires
        0 <= i < ts.len(),
    ensures
        models_m(ts)[i] == ts[i].model(),
        texts(ts)[i] == ts[i].text(),
    decreases ts.len(),
{
    lemma_models_len(ts);
    let pre = ts.subrange(0, ts.len() - 1);
    lemma_models_len(pre);
    if i < ts.len() - 1 {
        lemma_models_index(pre, i);
    }
}

proof fn lemma_models_take(ts: Seq<Type>, i: int)
    requires
        0 <= i < ts.len(),
    ensures
        models_m(ts.take(i + 1)) == models_m(ts.take(i)).push(ts[i].model()),
        texts(ts.take(i + 1)) == texts(ts.take(i)).push(ts[i].text()),
{
    assert(ts.take(i + 1).subrange(0, i) =~= ts.take(i));
}

impl Type {
    pub open spec fn model(&self) -> TypeM
        decreases self,
    {
        match self {
            Type::Int => TypeM::Int,
            Type::Bool => TypeM::Bool,
            Type::Func(args, ret) => {
                proof {
                    assert(decreases_to!(args => args@));
                }
                TypeM::Func(models_m(args@), Box::new(ret.model()))
            },
        }
    }

    /// How `Display` writes the type: `int`, `bool`, `(a, b) -> r`.
    pub open spec fn text(&self) -> Seq<char>
        decreases self,
    {
        match self {
            Type::Int => "int"@,
            Type::Bool => "bool"@,
            Type::Func(args, ret) => {
                proof {
                    assert(decreases_to!(args => args@));
                }
                "("@ + joined(texts(args@)) + ") -> "@ + ret.text()
            },
        }
    }

    /// The type as `Display` writes it.
    #[verifier::loop_isolation(false)]
    pub fn to_text(&self) -> (s: String)
        ensures
            s@ == self.text(),
        decreases self,
    {
        match self {
            Type::Int => "int".to_owned(),
            Type::Bool => "bool".to_owned(),
            Type::Func(args, ret) => {
                let mut s = "(".to_owned();
                let ghost start = s@;
                let mut i: usize = 0;
                proof {
                    assert(args@.take(0) =~= Seq::<Type>::empty());
                    assert(texts(args@.take(0)) =~= Seq::<Seq<char>>::empty());
                }
                while i < args.len()
                    invariant
                        i <= args@.len(),
                        s@ == start + joined(texts(args@.take(i as int))),
                    decreases args.len() - i,
                {
                    proof {
                        assert(decreases_to!(args@ => args@[i as int]));
                        assert(decreases_to!(*args => args@));
                        assert(decreases_to!(*self => args@[i as int]));
                        lemma_models_take(args@, i as int);
                        lemma_models_len(args@.take(i as int));
                    }
                    let ghost before = s@;
                    if i > 0 {
                        push_str(&mut s, ", ");
                    }
                    let t = args[i].to_text();
                    push_str(&mut s, t.as_str());
                    proof {
                        let ps = texts(args@.take(i + 1));
                        assert(ps.drop_last() =~= texts(args@.take(i as int)));
                        if i == 0 {
                            assert(ps.len() == 1);
                        }
                    }
                    i += 1;
                }
                proof {
                    assert(args@.take(i as int) =~= args@);
                }
                push_str(&mut s, ") -> ");
                let r = ret.to_text();
                push_str(&mut s, r.as_str());
                s
            },
        }
    }

    /// A copy.
    #[verifier::loop_isolation(false)]
    pub fn copy(&self) -> (r: Self)
        ensures
            r.model() == self.model(),
        decreases self,
    {
        match self {
            Type::Int => Type::Int,
            Type::Bool => Type::Bool,
            Type::Func(args, ret) => {
                let mut out: Vec<Type> = Vec::new();
                let mut i: usize = 0;
                proof {
                    assert(args@.take(0) =~= Seq::<Type>::empty());
                    assert(out@ =~= Seq::<Type>::empty());
                }
                while i < args.len()
                    invariant
                        i <= args@.len(),
                        models_m(out@) == models_m(args@.take(i as int)),
                    decreases args.len() - i,
                {
                    proof {
                        assert(decreases_to!(args@ => args@[i as int]));
                        assert(decreases_to!(*args => args@));
                        assert(decreases_to!(*self => args@[i as int]));
                        lemma_models_take(args@, i as int);
                    }
                    let c = args[i].copy();
                    let ghost ob = out@;
                    out.push(c);
                    proof {
                        assert(out@.subrange(0, out@.len() - 1) =~= ob);
                    }
                    i += 1;
                }
                proof {
                    assert(args@.take(i as int) =~= args@);
                }
                Type::Func(out, Box::new(ret.copy()))
            },
        }
    }

    /// Whether two types are the same.
    #[verifier::loop_isolation(false)]
    pub fn same(&self, other: &Type) -> (r: bool)
        ensures
            r == (self.model() == other.model()),
        decreases self,
    {
        match (self, other) {
            (Type::Int, Type::Int) => true,
            (Type::Bool, Type::Bool) => true,
            (Type::Func(a, ar), Type::Func(b, br)) => {
                proof {
                    lemma_models_len(a@);
                    lemma_models_len(b@);
                }
                if a.len() != b.len() {
                    return false;
                }
                let mut i: usize = 0;
                while i < a.len()
                    invariant
                        i <= a@.len(),
                        a@.len() == b@.len(),
                        forall|j: int| 0 <= j < i ==> a@[j].model() == b@[j].model(),
                    decreases a.len() - i,
                {
                    proof {
                        assert(decreases_to!(a@ => a@[i as int]));
                        assert(decreases_to!(*a => a@));
                        assert(decreases_to!(*self => a@[i as int]));
                    }
                    if !a[i].same(&b[i]) {
                        proof {
                            lemma_models_index(a@, i as int);
                            lemma_models_index(b@, i as int);
                            assert(models_m(a@)[i as int] != models_m(b@)[i as int]);
                            assert(models_m(a@) != models_m(b@));
                        }
                        return false;
                    }
                    i += 1;
                }
                proof {
                    assert forall|j: int| 0 <= j < a@.len() implies models_m(a@)[j] == models_m(b@)[j] by {
                        lemma_models_index(a@, j);
                        lemma_models_index(b@, j);
                    }
                    assert(models_m(a@) =~= models_m(b@));
                }
                ar.same(br)
            },
            _ => false,
        }
    }
}

impl Clone for Type {
    fn clone(&self) -> (r: Self)
        ensures
            r.model() == self.model(),
    {
        self.copy()
    }
}

impl Expr {
    /// A copy.
    pub fn copy(&self) -> (r: Self)
        ensures
            r.model() == self.model(),
        decreases self,
    {
        match self {
            Expr::Int(n) => Expr::Int(*n),
            Expr::Bool(b) => Expr::Bool(*b),
            Expr::Ident(s) => Expr::Ident(s.clone()),
            Expr::Binary(l, op, r) => Expr::Binary(Box::new(l.copy()), *op, Box::new(r.copy())),
            Expr::If(c, t, e) => {
                let e2 = match e {
                    Some(x) => Some(Box::new(x.copy())),
                    None => None,
                };
                Expr::If(Box::new(c.copy()), Box::new(t.copy()), e2)
            },
        }
    }
}

impl Clone for Expr {
    fn clone(&self) -> (r: Self)
        ensures
            r.model() == self.model(),
    {
        self.copy()
    }
}

impl Clone for Stmt {
    fn clone(&self) -> (r: Self)
        ensures
            r.model() == self.model(),
    {
        match self {
            Stmt::Let { name, ty, expr } => {
                let t = match ty {
                    Some(x) => Some(x.copy()),
                    None => None,
                };
                Stmt::Let { name: name.clone(), ty: t, expr: expr.copy() }
            },
            Stmt::Expr(e) => Stmt::Expr(e.copy()),
        }
    }
}

impl Clone for Program {
    fn clone(&self) -> Self {
        let mut stmts: Vec<Stmt> = Vec::new();
        let mut i: usize = 0;
        while i < self.stmts.len()
            decreases self.stmts.len() - i,
        {
            stmts.push(self.stmts[i].clone());
            i += 1;
        }
        Program { stmts }
    }
}

} // verus!
