//! Types of the language, typing environments and the type-matching trait.

use vstd::prelude::*;
use vstd::std_specs::cmp::PartialEqSpecImpl;

verus! {

/// A type of the language. Equality is structural; there is no subtyping.
#[derive(Debug)]
pub enum Type {
    /// No constraint: the type of a name without a binding.
    Unknown,
    /// 32-bit integer.
    I32,
    /// Function from the first type to the second.
    Func(Box<Type>, Box<Type>),
}

impl Type {
    /// Structural comparison of two types.
    pub fn same(&self, other: &Type) -> (r: bool)
        ensures
            r == (*self == *other),
        decreases *self,
    {
        match (self, other) {
            (Type::Unknown, Type::Unknown) => true,
            (Type::I32, Type::I32) => true,
            (Type::Func(p1, r1), Type::Func(p2, r2)) => p1.same(p2) && r1.same(r2),
            _ => false,
        }
    }

    /// A deep copy of the type.
    pub fn duplicate(&self) -> (r: Type)
        ensures
            r == *self,
        decreases *self,
    {
        match self {
            Type::Unknown => Type::Unknown,
            Type::I32 => Type::I32,
            Type::Func(p, r) => Type::Func(Box::new(p.duplicate()), Box::new(r.duplicate())),
        }
    }
}

impl PartialEq for Type {
    fn eq(&self, other: &Type) -> (r: bool) {
        self.same(other)
    }
}

impl PartialEqSpecImpl for Type {
    open spec fn obeys_eq_spec() -> bool {
        true
    }

    open spec fn eq_spec(&self, other: &Type) -> bool {
        *self == *other
    }
}

impl Clone for Type {
    fn clone(&self) -> (r: Type)
        ensures
            r == *self,
    {
        self.duplicate()
    }
}

/// One binding of a typing environment.
pub struct Binding {
    pub name: String,
    pub ty: Type,
}

/// The mapping that a list of bindings stands for: a later binding of a name
/// hides the earlier ones.
pub open spec fn bindings_map(bindings: Seq<Binding>) -> Map<Seq<char>, Type>
    decreases bindings.len(),
{
    if bindings.len() == 0 {
        Map::empty()
    } else {
        bindings_map(bindings.drop_last()).insert(bindings.last().name@, bindings.last().ty)
    }
}

/// A name that no binding mentions is not in the mapping.
pub proof fn lemma_bindings_absent(bindings: Seq<Binding>, name: Seq<char>)
    requires
        forall|j: int| 0 <= j < bindings.len() ==> bindings[j].name@ != name,
    ensures
        !bindings_map(bindings).contains_key(name),
    decreases bindings.len(),
{
    if bindings.len() > 0 {
        lemma_bindings_absent(bindings.drop_last(), name);
    }
}

/// The last binding of a name decides what the mapping holds for it.
pub proof fn lemma_bindings_last(bindings: Seq<Binding>, name: Seq<char>, i: int)
    requires
        0 <= i < bindings.len(),
        bindings[i].name@ == name,
        forall|j: int| i < j < bindings.len() ==> bindings[j].name@ != name,
    ensures
        bindings_map(bindings).contains_key(name),
        bindings_map(bindings)[name] == bindings[i].ty,
    decreases bindings.len(),
{
    if i < bindings.len() - 1 {
        lemma_bindings_last(bindings.drop_last(), name, i);
    }
}

/// A typing environment: a finite mapping from identifiers to types.
pub struct Env {
    bindings: Vec<Binding>,
}

impl View for Env {
    type V = Map<Seq<char>, Type>;

    closed spec fn view(&self) -> Map<Seq<char>, Type> {
        bindings_map(self.bindings@)
    }
}

impl Env {
    /// The environment without bindings.
    pub fn new() -> (env: Env)
        ensures
            env@ == Map::<Seq<char>, Type>::empty(),
    {
        Env { bindings: Vec::new() }
    }

    /// Binds `name` to `ty`; an earlier binding of `name` is replaced.
    pub fn insert(&mut self, name: String, ty: Type)
        ensures
            final(self)@ == old(self)@.insert(name@, ty),
    {
        self.bindings.push(Binding { name, ty });
        assert(self.bindings@.drop_last() == old(self).bindings@);
    }

    /// The type bound to `name`, if there is one.
    pub fn get(&self, name: &String) -> (r: Option<&Type>)
        ensures
            self@.contains_key(name@) ==> r == Some(&self@[name@]),
            !self@.contains_key(name@) ==> r.is_none(),
    {
        let mut i: usize = self.bindings.len();
        while i > 0
            invariant
                i <= self.bindings.len(),
                forall|j: int| i <= j < self.bindings.len() ==> self.bindings[j].name@ != name@,
            decreases i,
        {
            i = i - 1;
            if self.bindings[i].name == *name {
                proof {
                    lemma_bindings_last(self.bindings@, name@, i as int);
                }
                return Some(&self.bindings[i].ty);
            }
        }
        proof {
            lemma_bindings_absent(self.bindings@, name@);
        }
        None
    }

    /// A copy of the environment in which `name` is bound to `ty`. The
    /// environment itself is left as it is.
    pub fn extended(&self, name: String, ty: Type) -> (env: Env)
        ensures
            env@ == self@.insert(name@, ty),
    {
        let mut bindings: Vec<Binding> = Vec::new();
        let mut i: usize = 0;
        while i < self.bindings.len()
            invariant
                i <= self.bindings.len(),
                bindings@.len() == i,
                forall|j: int| 0 <= j < i ==> bindings[j].name@ == self.bindings[j].name@,
                forall|j: int| 0 <= j < i ==> bindings[j].ty == self.bindings[j].ty,
            decreases self.bindings.len() - i,
        {
            let b = &self.bindings[i];
            bindings.push(Binding { name: b.name.clone(), ty: b.ty.duplicate() });
            i = i + 1;
        }
        proof {
            lemma_bindings_same(bindings@, self.bindings@);
        }
        let mut env = Env { bindings };
        env.insert(name, ty);
        env
    }
}

/// Lists of bindings that agree on names and types stand for one mapping.
proof fn lemma_bindings_same(a: Seq<Binding>, b: Seq<Binding>)
    requires
        a.len() == b.len(),
        forall|j: int| 0 <= j < a.len() ==> a[j].name@ == b[j].name@,
        forall|j: int| 0 <= j < a.len() ==> a[j].ty == b[j].ty,
    ensures
        bindings_map(a) == bindings_map(b),
    decreases a.len(),
{
    if a.len() > 0 {
        lemma_bindings_same(a.drop_last(), b.drop_last());
    }
}

/// Checking a term against an expected type.
pub trait Match {
    /// What `check_type` returns: `Ok` where the term has the type `want` in
    /// `env`, else the type that was found in its place.
    spec fn check_spec(&self, env: Map<Seq<char>, Type>, want: Type) -> Result<(), Type>;

    /// Decides whether the term matches `t` exactly in `env`. On a mismatch
    /// the error is the actual type at the first point of disagreement.
    fn check_type(&self, env: &Env, t: Type) -> (r: Result<(), Type>)
        ensures
            r == self.check_spec(env@, t),
    ;
}

} // verus!
