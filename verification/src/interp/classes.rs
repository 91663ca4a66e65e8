//! The class declarations of a running program, and lookups up their chains
//! of bases: methods, the constructor parameters in force, attribute
//! initializers, and instance tests.
use vstd::prelude::*;
use crate::ast::{
    ClassDecl, ClassMember, ExprS, FunctionDecl, copy_params, copy_type_opt, same_class, same_expr, same_params,
    same_type_opt,
};
use crate::sema::checker::opt_view;
use crate::sema::table::Table;
use crate::text::str_eq;
use super::error::RuntimeError;
use super::value::Shape;

verus! {

/// The index of the last declaration in `ds` named `c`.
pub open spec fn last_named(ds: Seq<ClassDecl>, c: Seq<char>) -> Option<int>
    decreases ds.len(),
{
    if ds.len() == 0 {
        None
    } else if ds.last().name@ == c {
        Some(ds.len() - 1)
    } else {
        last_named(ds.drop_last(), c)
    }
}

/// The base class `c` names in `t`.
pub open spec fn decl_base(t: Table<ClassDecl>, c: Seq<char>) -> Option<Seq<char>> {
    match t.spec_get(c) {
        Some(d) => opt_view(d.base),
        None => None,
    }
}

/// `sup` is among the first `fuel` bases up from `c`.
pub open spec fn decl_reaches(t: Table<ClassDecl>, c: Seq<char>, sup: Seq<char>, fuel: nat) -> bool
    decreases fuel,
{
    if fuel == 0 {
        false
    } else {
        match decl_base(t, c) {
            Some(b) => b == sup || decl_reaches(t, b, sup, (fuel - 1) as nat),
            None => false,
        }
    }
}

/// The index of the first method named `m` among `ms`.
pub open spec fn first_method(ms: Seq<ClassMember>, m: Seq<char>) -> Option<int>
    decreases ms.len(),
{
    if ms.len() == 0 {
        None
    } else if ms[0] matches ClassMember::Method { name, .. } && name@ == m {
        Some(0)
    } else {
        match first_method(ms.drop_first(), m) {
            Some(i) => Some(i + 1),
            None => None,
        }
    }
}

/// `f` is a copy, as a function, of the method `mem`.
pub open spec fn fn_of_method(f: FunctionDecl, mem: ClassMember) -> bool {
    match mem {
        ClassMember::Method { name, params, return_type, body, span } => {
            &&& f.name == name
            &&& same_params(params@, f.params@)
            &&& same_type_opt(return_type, f.return_type)
            &&& same_expr(body, f.body)
            &&& f.span == span
        },
        _ => false,
    }
}

proof fn lemma_first_method_bounds(ms: Seq<ClassMember>, m: Seq<char>)
    ensures
        first_method(ms, m) matches Some(i) ==> 0 <= i < ms.len() && ms[i] is Method,
    decreases ms.len(),
{
    if ms.len() > 0 {
        lemma_first_method_bounds(ms.drop_first(), m);
    }
}

/// The class declaring method `m` nearest up from `c`, and the method's index
/// among its members.
pub open spec fn method_owner(t: Table<ClassDecl>, c: Seq<char>, m: Seq<char>, fuel: nat) -> Option<(Seq<char>, int)>
    decreases fuel,
{
    if fuel == 0 {
        None
    } else {
        match t.spec_get(c) {
            None => None,
            Some(d) => match first_method(d.members@, m) {
                Some(i) => Some((c, i)),
                None => match d.base {
                    Some(b) => method_owner(t, b@, m, (fuel - 1) as nat),
                    None => None,
                },
            },
        }
    }
}

/// The class nearest up from `c` that declares constructor parameters.
pub open spec fn ctor_owner(t: Table<ClassDecl>, c: Seq<char>, fuel: nat) -> Option<Seq<char>>
    decreases fuel,
{
    if fuel == 0 {
        None
    } else {
        match t.spec_get(c) {
            None => None,
            Some(d) => if d.ctor_params@.len() > 0 {
                Some(c)
            } else {
                match d.base {
                    Some(b) => ctor_owner(t, b@, (fuel - 1) as nat),
                    None => None,
                }
            },
        }
    }
}

/// The attributes among `ms`, in order: each one's name and initializer.
pub open spec fn member_attrs(ms: Seq<ClassMember>) -> Seq<(Seq<char>, ExprS)>
    decreases ms.len(),
{
    if ms.len() == 0 {
        Seq::empty()
    } else {
        let rest = member_attrs(ms.drop_last());
        match ms.last() {
            ClassMember::Attribute { name, init, .. } => rest.push((name@, init)),
            _ => rest,
        }
    }
}

/// The attributes, with their initializers, from the root of `c`'s chain of
/// bases down to `c` (Object and classes already visited add none), and the
/// classes visited after.
pub open spec fn attr_chain(t: Table<ClassDecl>, c: Seq<char>, visited: Seq<Seq<char>>, fuel: nat) -> (
    Seq<Seq<char>>,
    Seq<(Seq<char>, ExprS)>,
)
    decreases fuel,
{
    if fuel == 0 || visited.contains(c) {
        (visited, Seq::empty())
    } else {
        let v1 = visited.push(c);
        match t.spec_get(c) {
            None => (v1, Seq::empty()),
            Some(d) => {
                let pre = match d.base {
                    Some(b) => if b@ != "Object"@ {
                        attr_chain(t, b@, v1, (fuel - 1) as nat)
                    } else {
                        (v1, Seq::empty())
                    },
                    None => (v1, Seq::empty()),
                };
                (pre.0, pre.1 + member_attrs(d.members@))
            },
        }
    }
}

/// `out` holds, in order, the names of `want` and copies of its initializers.
pub open spec fn attrs_match(out: Seq<(String, ExprS)>, want: Seq<(Seq<char>, ExprS)>) -> bool {
    &&& out.len() == want.len()
    &&& forall|k: int| 0 <= k < out.len() ==> #[trigger] out[k].0@ == want[k].0 && same_expr(want[k].1, out[k].1)
}

/// What a method call on a value of a built-in type does, or that the call
/// goes to a method a class declares.
#[derive(Debug, Clone, PartialEq)]
pub enum MethodTarget {
    /// A string's length.
    Length,
    /// A string read as a number.
    ToNumber,
    /// A string joined with another.
    Concat,
    /// A number written as text.
    ToText,
    /// The name of the value's type.
    GetType(String),
    /// An array's length.
    Size,
    /// A method declared by the object's class or one of its bases.
    Declared(String),
}

/// The classes of a program, by name.
pub struct ClassTable {
    pub classes: Table<ClassDecl>,
}

impl ClassTable {
    /// The table of `decls`; of two classes with one name, the later wins.
    pub fn new(decls: &Vec<ClassDecl>) -> (t: Self)
        ensures
            forall|c: Seq<char>| #[trigger] t.classes.has(c) == exists|i: int| 0 <= i < decls@.len() && decls@[i].name@ == c,
            forall|c: Seq<char>|
                #[trigger] last_named(decls@, c) matches Some(i) ==> t.classes.spec_get(c) matches Some(d) && same_class(
                    decls@[i],
                    d,
                ),
    {
        let mut classes: Table<ClassDecl> = Table::new();
        let mut i: usize = 0;
        proof {
            assert(decls@.take(0) =~= Seq::<ClassDecl>::empty());
        }
        while i < decls.len()
            invariant
                i <= decls@.len(),
                forall|c: Seq<char>| #[trigger] classes.has(c) == exists|j: int| 0 <= j < i && decls@[j].name@ == c,
                forall|c: Seq<char>|
                    #[trigger] last_named(decls@.take(i as int), c) matches Some(j) ==> classes.spec_get(c) matches Some(d)
                        && same_class(decls@[j], d),
            decreases decls.len() - i,
        {
            let ghost cb = classes;
            let d = decls[i].copy();
            classes.insert(decls[i].name.clone(), d);
            proof {
                let tk = decls@.take(i + 1);
                assert(tk.drop_last() =~= decls@.take(i as int));
                assert(tk.last() == decls@[i as int]);
                assert forall|c: Seq<char>| #[trigger] classes.has(c) == exists|j: int| 0 <= j < i + 1 && decls@[j].name@ == c by {
                    if c == decls@[i as int].name@ {
                        assert(decls@[i as int].name@ == c);
                    } else {
                        assert(classes.has(c) == cb.has(c));
                    }
                }
                assert forall|c: Seq<char>| #[trigger] last_named(tk, c) is Some implies classes.spec_get(c) is Some
                    && same_class(decls@[last_named(tk, c)->Some_0], classes.spec_get(c)->Some_0) by {
                    if c != decls@[i as int].name@ {
                        assert(last_named(tk, c) == last_named(decls@.take(i as int), c));
                    }
                }
            }
            i += 1;
        }
        proof {
            assert(decls@.take(i as int) =~= decls@);
        }
        ClassTable { classes }
    }

    pub open spec fn fuel(&self) -> nat {
        self.classes.entries().len() + 1
    }

    /// Levels enough for the walk that gathers attributes.
    pub open spec fn attr_fuel(&self) -> nat {
        if self.classes.entries().len() < usize::MAX {
            self.classes.entries().len() + 1
        } else {
            self.classes.entries().len()
        }
    }

    /// Whether class `sub` is `sup` or inherits from it.
    pub fn is_class_subtype(&self, sub: &str, sup: &str) -> (r: bool)
        ensures
            r == (sub@ == sup@ || sup@ == "Object"@ || decl_reaches(self.classes, sub@, sup@, self.fuel())),
    {
        if str_eq(sub, sup) || str_eq(sup, "Object") {
            return true;
        }
        let n = self.classes.len();
        let mut cur: String = sub.to_owned();
        let mut rem: usize = n;
        loop
            invariant
                rem <= n,
                n == self.classes.entries().len(),
                sub@ != sup@,
                sup@ != "Object"@,
                decl_reaches(self.classes, sub@, sup@, (n + 1) as nat) == decl_reaches(
                    self.classes,
                    cur@,
                    sup@,
                    (rem + 1) as nat,
                ),
            decreases rem,
        {
            match self.classes.get(cur.as_str()) {
                None => return false,
                Some(d) => match &d.base {
                    None => return false,
                    Some(b) => {
                        if str_eq(b.as_str(), sup) {
                            return true;
                        }
                        if rem == 0 {
                            assert(!decl_reaches(self.classes, b@, sup@, 0));
                            return false;
                        }
                        cur = b.clone();
                        rem -= 1;
                    },
                },
            }
        }
    }

    /// Whether a value of shape `v` is an instance of type `ty`: the
    /// primitives of their own type and of Object, objects of their class and
    /// its bases; null of nothing.
    pub fn is_instance_of(&self, v: &Shape, ty: &str) -> (r: bool)
        ensures
            r == match v {
                Shape::Number => ty@ == "Number"@ || ty@ == "Object"@,
                Shape::Boolean(_) => ty@ == "Boolean"@ || ty@ == "Object"@,
                Shape::Str => ty@ == "String"@ || ty@ == "Object"@,
                Shape::Null => false,
                Shape::Array => ty@ == "Object"@,
                Shape::Closure => ty@ == "Object"@,
                Shape::Object(c) => c@ == ty@ || ty@ == "Object"@ || decl_reaches(self.classes, c@, ty@, self.fuel()),
            },
    {
        match v {
            Shape::Number => str_eq(ty, "Number") || str_eq(ty, "Object"),
            Shape::Boolean(_) => str_eq(ty, "Boolean") || str_eq(ty, "Object"),
            Shape::Str => str_eq(ty, "String") || str_eq(ty, "Object"),
            Shape::Null => false,
            Shape::Array => str_eq(ty, "Object"),
            Shape::Closure => str_eq(ty, "Object"),
            Shape::Object(c) => self.is_class_subtype(c.as_str(), ty),
        }
    }

    /// The base class of `c`, if `c` is a class with one.
    pub fn base_of(&self, c: &str) -> (r: Option<String>)
        ensures
            opt_view(r) == decl_base(self.classes, c@),
    {
        match self.classes.get(c) {
            Some(d) => match &d.base {
                Some(b) => Some(b.clone()),
                None => None,
            },
            None => None,
        }
    }

    /// The first method named `m` among `ms`, as a function declaration.
    fn method_in(ms: &Vec<ClassMember>, m: &str) -> (r: Option<FunctionDecl>)
        ensures
            match first_method(ms@, m@) {
                Some(i) => r matches Some(f) && f.name@ == m@ && fn_of_method(f, ms@[i]),
                None => r is None,
            },
    {
        let mut i: usize = 0;
        proof {
            assert(ms@.skip(0) =~= ms@);
            if let Some(k) = first_method(ms@, m@) {
                assert(k + 0 == k);
            }
        }
        while i < ms.len()
            invariant
                i <= ms@.len(),
                first_method(ms@, m@) == match first_method(ms@.skip(i as int), m@) {
                    Some(k) => Some(k + i),
                    None => None,
                },
            decreases ms.len() - i,
        {
            proof {
                assert(ms@.skip(i as int).drop_first() =~= ms@.skip(i + 1));
                assert(ms@.skip(i as int)[0] == ms@[i as int]);
            }
            if let ClassMember::Method { name, params, return_type, body, span } = &ms[i] {
                if str_eq(name.as_str(), m) {
                    return Some(
                        FunctionDecl {
                            name: name.clone(),
                            params: copy_params(params),
                            return_type: copy_type_opt(return_type),
                            body: body.copy(),
                            span: *span,
                        },
                    );
                }
            }
            i += 1;
        }
        proof {
            assert(ms@.skip(i as int) =~= Seq::<ClassMember>::empty());
        }
        None
    }

    /// Finds a method by walking from class `class_name` up its bases: the
    /// method as a function, and the class that declares it.
    pub fn find_method(&self, class_name: &str, method: &str) -> (r: Option<(FunctionDecl, String)>)
        ensures
            match method_owner(self.classes, class_name@, method@, self.fuel()) {
                Some((owner, i)) => r matches Some((f, c)) && c@ == owner && f.name@ == method@ && (self.classes.spec_get(
                    owner,
                ) matches Some(d) && 0 <= i < d.members@.len() && fn_of_method(f, d.members@[i])),
                None => r is None,
            },
    {
        let n = self.classes.len();
        let mut cur: String = class_name.to_owned();
        let mut rem: usize = n;
        loop
            invariant
                rem <= n,
                n == self.classes.entries().len(),
                method_owner(self.classes, class_name@, method@, (n + 1) as nat) == method_owner(
                    self.classes,
                    cur@,
                    method@,
                    (rem + 1) as nat,
                ),
            decreases rem,
        {
            match self.classes.get(cur.as_str()) {
                None => return None,
                Some(d) => {
                    match ClassTable::method_in(&d.members, method) {
                        Some(f) => {
                            proof {
                                lemma_first_method_bounds(d.members@, method@);
                            }
                            return Some((f, cur));
                        },
                        None => {},
                    }
                    match &d.base {
                        None => return None,
                        Some(b) => {
                            if rem == 0 {
                                assert(method_owner(self.classes, b@, method@, 0) is None);
                                return None;
                            }
                            cur = b.clone();
                            rem -= 1;
                        },
                    }
                },
            }
        }
    }

    /// The class whose constructor parameters apply to `class_name`: the
    /// nearest up its bases that declares any, else `class_name` itself.
    pub fn find_ctor_class(&self, class_name: &str) -> (r: String)
        ensures
            r@ == match ctor_owner(self.classes, class_name@, self.fuel()) {
                Some(o) => o,
                None => class_name@,
            },
    {
        let n = self.classes.len();
        let mut cur: String = class_name.to_owned();
        let mut rem: usize = n;
        loop
            invariant
                rem <= n,
                n == self.classes.entries().len(),
                ctor_owner(self.classes, class_name@, (n + 1) as nat) == ctor_owner(
                    self.classes,
                    cur@,
                    (rem + 1) as nat,
                ),
            decreases rem,
        {
            match self.classes.get(cur.as_str()) {
                None => return class_name.to_owned(),
                Some(d) => {
                    if d.ctor_params.len() > 0 {
                        return cur;
                    }
                    match &d.base {
                        None => return class_name.to_owned(),
                        Some(b) => {
                            if rem == 0 {
                                assert(ctor_owner(self.classes, b@, 0) is None);
                                return class_name.to_owned();
                            }
                            cur = b.clone();
                            rem -= 1;
                        },
                    }
                },
            }
        }
    }

    fn collect_attr_chain_inner(
        &self,
        class_name: &str,
        chain: &mut Vec<(String, ExprS)>,
        visited: &mut Vec<String>,
        fuel: usize,
    )
        ensures
            ({
                let r = attr_chain(self.classes, class_name@, old(visited)@.map_values(|s: String| s@), fuel as nat);
                &&& final(visited)@.map_values(|s: String| s@) == r.0
                &&& final(chain)@.len() >= old(chain)@.len()
                &&& final(chain)@.take(old(chain)@.len() as int) == old(chain)@
                &&& attrs_match(final(chain)@.skip(old(chain)@.len() as int), r.1)
            }),
        decreases fuel,
    {
        let ghost v0 = visited@.map_values(|s: String| s@);
        let ghost c0 = chain@;
        let ghost n0 = chain@.len() as int;
        proof {
            assert(c0.take(n0) =~= c0);
            assert(c0.skip(n0) =~= Seq::<(String, ExprS)>::empty());
        }
        if fuel == 0 {
            return;
        }
        let mut k: usize = 0;
        while k < visited.len()
            invariant
                k <= visited@.len(),
                visited@.map_values(|s: String| s@) == v0,
                forall|j: int| 0 <= j < k ==> visited@[j]@ != class_name@,
            decreases visited.len() - k,
        {
            if str_eq(visited[k].as_str(), class_name) {
                proof {
                    assert(v0[k as int] == class_name@);
                    assert(v0.contains(class_name@));
                }
                return;
            }
            k += 1;
        }
        proof {
            assert(!v0.contains(class_name@)) by {
                if v0.contains(class_name@) {
                    let j = choose|j: int| 0 <= j < v0.len() && v0[j] == class_name@;
                    assert(visited@[j]@ == class_name@);
                }
            }
        }
        visited.push(class_name.to_owned());
        let ghost v1 = visited@.map_values(|s: String| s@);
        proof {
            assert(v1 =~= v0.push(class_name@));
        }
        match self.classes.get(class_name) {
            None => {},
            Some(d) => {
                let ghost pre = match &d.base {
                    Some(b) => if b@ != "Object"@ {
                        attr_chain(self.classes, b@, v1, (fuel - 1) as nat)
                    } else {
                        (v1, Seq::empty())
                    },
                    None => (v1, Seq::empty()),
                };
                if let Some(b) = &d.base {
                    if !str_eq(b.as_str(), "Object") {
                        self.collect_attr_chain_inner(b.as_str(), chain, visited, fuel - 1);
                    }
                }
                proof {
                    assert(chain@.take(n0) == c0);
                    assert(pre.1 + member_attrs(d.members@.take(0)) =~= pre.1);
                }
                let mut i: usize = 0;
                while i < d.members.len()
                    invariant
                        i <= d.members@.len(),
                        visited@.map_values(|s: String| s@) == pre.0,
                        0 <= n0 <= chain@.len(),
                        chain@.take(n0) == c0,
                        attrs_match(chain@.skip(n0), pre.1 + member_attrs(d.members@.take(i as int))),
                    decreases d.members.len() - i,
                {
                    let ghost before = chain@;
                    let ghost want = pre.1 + member_attrs(d.members@.take(i as int));
                    proof {
                        let tk = d.members@.take(i + 1);
                        assert(tk.drop_last() =~= d.members@.take(i as int));
                        assert(tk.last() == d.members@[i as int]);
                    }
                    if let ClassMember::Attribute { name, init, .. } = &d.members[i] {
                        let nm = name.clone();
                        let ex = init.copy();
                        let ghost pair = (nm, ex);
                        chain.push((nm, ex));
                        proof {
                            assert(chain@.take(n0) =~= before.take(n0));
                            assert(chain@.skip(n0) =~= before.skip(n0).push(pair));
                            assert(pre.1 + member_attrs(d.members@.take(i + 1)) =~= want.push((name@, *init)));
                        }
                    }
                    i += 1;
                }
                proof {
                    assert(d.members@.take(i as int) =~= d.members@);
                }
            },
        }
    }

    /// The attributes that an instance of `class_name` initializes, each with
    /// a copy of its initializer, from the root of its chain of bases down to
    /// the class itself.
    pub fn collect_attr_chain(&self, class_name: &str) -> (r: Vec<(String, ExprS)>)
        ensures
            attrs_match(r@, attr_chain(self.classes, class_name@, Seq::empty(), self.attr_fuel()).1),
    {
        let mut chain: Vec<(String, ExprS)> = Vec::new();
        let mut visited: Vec<String> = Vec::new();
        let n = self.classes.len();
        let fuel: usize = if n < usize::MAX { n + 1 } else { n };
        proof {
            assert(visited@.map_values(|s: String| s@) =~= Seq::<Seq<char>>::empty());
        }
        self.collect_attr_chain_inner(class_name, &mut chain, &mut visited, fuel);
        proof {
            assert(chain@.skip(0) =~= chain@);
        }
        chain
    }
}

/// A method target with its names as character sequences.
pub ghost enum TargetV {
    Length,
    ToNumber,
    Concat,
    ToText,
    GetType(Seq<char>),
    Size,
    Declared(Seq<char>),
}

impl MethodTarget {
    pub open spec fn view_of(&self) -> TargetV {
        match self {
            MethodTarget::Length => TargetV::Length,
            MethodTarget::ToNumber => TargetV::ToNumber,
            MethodTarget::Concat => TargetV::Concat,
            MethodTarget::ToText => TargetV::ToText,
            MethodTarget::GetType(n) => TargetV::GetType(n@),
            MethodTarget::Size => TargetV::Size,
            MethodTarget::Declared(c) => TargetV::Declared(c@),
        }
    }
}

/// Where a method call goes, by the receiver's shape: the built-in methods of
/// strings, numbers, Booleans, arrays and null, `getType` on any object, and
/// otherwise the object's class; `None` when the receiver has no such method.
pub open spec fn target_of(v: Shape, m: Seq<char>) -> Option<TargetV> {
    match v {
        Shape::Str => if m == "length"@ {
            Some(TargetV::Length)
        } else if m == "toNumber"@ {
            Some(TargetV::ToNumber)
        } else if m == "concat"@ {
            Some(TargetV::Concat)
        } else {
            None
        },
        Shape::Number => if m == "toString"@ {
            Some(TargetV::ToText)
        } else if m == "getType"@ {
            Some(TargetV::GetType("Number"@))
        } else {
            None
        },
        Shape::Boolean(_) => if m == "getType"@ {
            Some(TargetV::GetType("Boolean"@))
        } else {
            None
        },
        Shape::Array => if m == "size"@ {
            Some(TargetV::Size)
        } else if m == "getType"@ {
            Some(TargetV::GetType("Array"@))
        } else {
            None
        },
        Shape::Null => if m == "getType"@ {
            Some(TargetV::GetType("Null"@))
        } else {
            None
        },
        Shape::Closure => None,
        Shape::Object(c) => if m == "getType"@ {
            Some(TargetV::GetType(c@))
        } else {
            Some(TargetV::Declared(c@))
        },
    }
}

/// Where a call of method `method` on a value of shape `v` goes; the error
/// names the receiver's type when it has no such method.
pub fn method_target(v: &Shape, method: &str) -> (r: Result<MethodTarget, RuntimeError>)
    ensures
        match target_of(*v, method@) {
            Some(t) => r matches Ok(x) && x.view_of() == t,
            None => r matches Err(RuntimeError::UndefinedMethod { ty_name, method: m }) && ty_name@ == v.spec_name()
                && m@ == method@,
        },
{
    let no_method = RuntimeError::UndefinedMethod { ty_name: v.name(), method: method.to_owned() };
    match v {
        Shape::Str => {
            if str_eq(method, "length") {
                Ok(MethodTarget::Length)
            } else if str_eq(method, "toNumber") {
                Ok(MethodTarget::ToNumber)
            } else if str_eq(method, "concat") {
                Ok(MethodTarget::Concat)
            } else {
                Err(no_method)
            }
        },
        Shape::Number => {
            if str_eq(method, "toString") {
                Ok(MethodTarget::ToText)
            } else if str_eq(method, "getType") {
                Ok(MethodTarget::GetType("Number".to_owned()))
            } else {
                Err(no_method)
            }
        },
        Shape::Boolean(_) => {
            if str_eq(method, "getType") {
                Ok(MethodTarget::GetType("Boolean".to_owned()))
            } else {
                Err(no_method)
            }
        },
        Shape::Array => {
            if str_eq(method, "size") {
                Ok(MethodTarget::Size)
            } else if str_eq(method, "getType") {
                Ok(MethodTarget::GetType("Array".to_owned()))
            } else {
                Err(no_method)
            }
        },
        Shape::Null => {
            if str_eq(method, "getType") {
                Ok(MethodTarget::GetType("Null".to_owned()))
            } else {
                Err(no_method)
            }
        },
        Shape::Closure => Err(no_method),
        Shape::Object(c) => {
            if str_eq(method, "getType") {
                Ok(MethodTarget::GetType(c.clone()))
            } else {
                Ok(MethodTarget::Declared(c.clone()))
            }
        },
    }
}

/// Each built-in target is reached by one method name only, on the receivers
/// that have it: `length`, `toNumber` and `concat` on strings, `toString`
/// (the number written as text) on numbers, `size` on arrays, `getType` on
/// any receiver with it, giving the receiver's type name; any other method of
/// an object goes to the object's class.
pub proof fn law_target_by_method_name(v: Shape, m: Seq<char>)
    ensures
        match target_of(v, m) {
            Some(TargetV::Length) => m == "length"@ && v is Str,
            Some(TargetV::ToNumber) => m == "toNumber"@ && v is Str,
            Some(TargetV::Concat) => m == "concat"@ && v is Str,
            Some(TargetV::ToText) => m == "toString"@ && v is Number,
            Some(TargetV::GetType(n)) => m == "getType"@ && n == v.spec_name(),
            Some(TargetV::Size) => m == "size"@ && v is Array,
            Some(TargetV::Declared(c)) => v is Object && c == v.spec_name() && m != "getType"@,
            None => true,
        },
{
}

} // verus!

