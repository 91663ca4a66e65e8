//! Static types of the checker.
use vstd::prelude::*;
use crate::text::push_str;

verus! {

/// The type of an expression or binding.
#[derive(Debug, PartialEq)]
pub enum Type {
    Number,
    Boolean,
    Str,
    Object,
    Null,
    Named(String),
    Array(Box<Type>),
    /// Placeholder after an error, or where nothing is known.
    Unknown,
}

/// What a type is, with names as character sequences.
pub ghost enum TypeV {
    Number,
    Boolean,
    Str,
    Object,
    Null,
    Named(Seq<char>),
    Array(Box<TypeV>),
    Unknown,
}

/// The name of a type as messages write it (`T[]` for arrays).
pub open spec fn tv_name(t: TypeV) -> Seq<char>
    decreases t,
{
    match t {
        TypeV::Number => "Number"@,
        TypeV::Boolean => "Boolean"@,
        TypeV::Str => "String"@,
        TypeV::Object => "Object"@,
        TypeV::Null => "Null"@,
        TypeV::Named(n) => n,
        TypeV::Array(e) => tv_name(*e) + "[]"@,
        TypeV::Unknown => "<unknown>"@,
    }
}

impl Type {
    pub open spec fn model(&self) -> TypeV
        decreases self,
    {
        match self {
            Type::Number => TypeV::Number,
            Type::Boolean => TypeV::Boolean,
            Type::Str => TypeV::Str,
            Type::Object => TypeV::Object,
            Type::Null => TypeV::Null,
            Type::Named(n) => TypeV::Named(n@),
            Type::Array(t) => TypeV::Array(Box::new(t.model())),
            Type::Unknown => TypeV::Unknown,
        }
    }

    pub open spec fn spec_name(&self) -> Seq<char>
        decreases self,
    {
        match self {
            Type::Number => "Number"@,
            Type::Boolean => "Boolean"@,
            Type::Str => "String"@,
            Type::Object => "Object"@,
            Type::Null => "Null"@,
            Type::Named(n) => n@,
            Type::Array(t) => t.spec_name() + "[]"@,
            Type::Unknown => "<unknown>"@,
        }
    }

    /// The name of the type as messages write it (`T[]` for arrays).
    pub fn name(&self) -> (r: String)
        ensures
            r@ == self.spec_name(),
            r@ == tv_name(self.model()),
        decreases self,
    {
        match self {
            Type::Number => "Number".to_owned(),
            Type::Boolean => "Boolean".to_owned(),
            Type::Str => "String".to_owned(),
            Type::Object => "Object".to_owned(),
            Type::Null => "Null".to_owned(),
            Type::Named(n) => n.clone(),
            Type::Array(t) => {
                let mut s = t.name();
                push_str(&mut s, "[]");
                s
            },
            Type::Unknown => "<unknown>".to_owned(),
        }
    }

    /// Number and Boolean: the types that cannot hold null.
    pub fn is_primitive(&self) -> (r: bool)
        ensures
            r == (*self is Number || *self is Boolean),
    {
        match self {
            Type::Number | Type::Boolean => true,
            _ => false,
        }
    }

    /// An equal copy.
    pub fn copy(&self) -> (r: Self)
        ensures
            r.model() == self.model(),
        decreases self,
    {
        match self {
            Type::Number => Type::Number,
            Type::Boolean => Type::Boolean,
            Type::Str => Type::Str,
            Type::Object => Type::Object,
            Type::Null => Type::Null,
            Type::Named(n) => Type::Named(n.clone()),
            Type::Array(t) => Type::Array(Box::new(t.copy())),
            Type::Unknown => Type::Unknown,
        }
    }

    /// Structural equality.
    pub fn same(&self, other: &Type) -> (r: bool)
        ensures
            r == (self.model() == other.model()),
        decreases self,
    {
        match (self, other) {
            (Type::Number, Type::Number) => true,
            (Type::Boolean, Type::Boolean) => true,
            (Type::Str, Type::Str) => true,
            (Type::Object, Type::Object) => true,
            (Type::Null, Type::Null) => true,
            (Type::Named(a), Type::Named(b)) => a.eq(b),
            (Type::Array(a), Type::Array(b)) => a.same(b),
            (Type::Unknown, Type::Unknown) => true,
            _ => false,
        }
    }
}

impl Clone for Type {
    fn clone(&self) -> (r: Self)
        ensures
            r.model() == self.model(),
    {
        self.copy()
    }
}

/// The models of a list of types.
pub open spec fn models(v: Seq<Type>) -> Seq<TypeV> {
    v.map_values(|t: Type| t.model())
}

/// Copies a list of types.
pub fn copy_types(v: &Vec<Type>) -> (r: Vec<Type>)
    ensures
        models(r@) == models(v@),
{
    let mut out: Vec<Type> = Vec::new();
    let mut i: usize = 0;
    while i < v.len()
        invariant
            i <= v.len(),
            out@.len() == i,
            models(out@) == models(v@.take(i as int)),
        decreases v.len() - i,
    {
        let ghost before = out@;
        out.push(v[i].copy());
        proof {
            assert(v@.take(i + 1) =~= v@.take(i as int).push(v@[i as int]));
            assert(out@ =~= before.push(out@[i as int]));
            assert(models(out@) =~= models(before).push(v@[i as int].model()));
            assert(models(v@.take(i + 1)) =~= models(v@.take(i as int)).push(v@[i as int].model()));
        }
        i += 1;
    }
    proof {
        assert(v@.take(v@.len() as int) =~= v@);
    }
    out
}

} // verus!
