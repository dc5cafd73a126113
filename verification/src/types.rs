//! The type algebra shared by the unifier and the constraint solver: plain
//! data, well-formedness rules, and the small structural operations
//! (cloning, retagging, substitution) that both mechanisms use.

use vstd::prelude::*;

verus! {

/// A source location: a file identifier and a byte range within it.
#[derive(Clone, Copy, Debug, PartialEq, Eq, Hash, Structural)]
pub struct Span {
    pub file: u64,
    pub lo: u64,
    pub hi: u64,
}

/// Identity of a nominal type or of a rigid type parameter. Two names are
/// the same type exactly when their identifiers are equal.
#[derive(Clone, Copy, Debug, PartialEq, Eq, Hash, Structural)]
pub struct NameId(pub u64);

/// Whether a unification placeholder may be committed by the unifier
/// (`Mutable`) or must be left untouched and deferred (`Rigid`).
#[derive(Clone, Copy, Debug, PartialEq, Eq, Hash, Structural)]
pub enum Mutability {
    Rigid,
    Mutable,
}

/// Identity of a unification placeholder: the span it was minted for plus an
/// ordinal that distinguishes placeholders minted for the same span.
#[derive(Clone, Copy, Debug, PartialEq, Eq, Hash, Structural)]
pub struct UniVar {
    pub span: Span,
    pub count: u64,
}

/// Why a placeholder was committed; kept for later error attribution.
#[derive(Clone, Copy, Debug, PartialEq, Eq, Structural)]
pub enum Because {
    Unified(Span),
}

/// A closed, placeholder-free type: the only shape allowed as the value of
/// an instantiation binding. Keeping these in a separate grammar makes the
/// no-placeholder rule hold by construction.
#[derive(Debug, PartialEq, Eq)]
pub enum GroundType {
    Invalid,
    Number,
    Range(i64, i64),
    Fun(Box<GroundType>, Box<GroundType>),
    Product(Box<GroundType>, Box<GroundType>),
}

/// An instantiation context: rigid parameter names mapped to the closed
/// types chosen for them, as an immutable list with unique keys, passed by
/// value down the recursion.
#[derive(Debug, PartialEq, Eq)]
pub enum Bindings {
    Nil,
    Cons(NameId, GroundType, Box<Bindings>),
}

/// The value domain of the solver.
#[derive(Debug, PartialEq, Eq)]
pub enum Type {
    /// Result of an earlier error; unifies with anything silently.
    Invalid,
    /// The unconstrained numeric supertype; absorbs any range.
    Number,
    /// An inclusive integer interval; `lo <= hi` is required by construction.
    Range(i64, i64),
    /// Reference to a nominal type declared elsewhere; equality by identity.
    Name(NameId),
    Fun(Box<Type>, Box<Type>),
    Product(Box<Type>, Box<Type>),
    /// A unification placeholder.
    Var(Mutability, UniVar),
    /// A base type read through an instantiation context.
    Instantiated(Box<Type>, Bindings),
}

/// One diagnostic category per way unification can fail, plus the
/// ambiguity report for constraints that never became solvable.
#[derive(Debug, PartialEq, Eq)]
pub enum MessageKind {
    /// Two types cannot unify; carries the best-known forms of both sides
    /// where they are available.
    Incompatible(Option<Type>, Option<Type>),
    /// An interval does not contain a required sub-interval; carries both
    /// raw bound pairs, expected first.
    NarrowRange((i64, i64), (i64, i64)),
    /// An occurs-check violation: the placeholder and the type it would
    /// have had to contain itself through.
    RecursiveInference(UniVar, Type),
    /// A constraint that never became solvable during fixpoint iteration.
    Ambiguous,
}

/// A structured diagnostic record: a category tagged with a source span.
#[derive(Debug, PartialEq, Eq)]
pub struct Message {
    pub span: Span,
    pub kind: MessageKind,
}

/// Structural size of a type, not counting instantiation contexts; the
/// unifier's termination measures are built from it.
pub open spec fn size_of(t: Type) -> nat
    decreases t,
{
    match t {
        Type::Fun(a, b) => 1 + size_of(*a) + size_of(*b),
        Type::Product(a, b) => 1 + size_of(*a) + size_of(*b),
        Type::Instantiated(a, _) => 1 + size_of(*a),
        _ => 1,
    }
}

/// How many `Name` nodes occur structurally in a type.
pub open spec fn names_of(t: Type) -> nat
    decreases t,
{
    match t {
        Type::Name(_) => 1,
        Type::Fun(a, b) => names_of(*a) + names_of(*b),
        Type::Product(a, b) => names_of(*a) + names_of(*b),
        Type::Instantiated(a, _) => names_of(*a),
        _ => 0,
    }
}

/// The set of placeholders occurring structurally in a type.
pub open spec fn vars_of(t: Type) -> Set<UniVar>
    decreases t,
{
    match t {
        Type::Var(_, v) => Set::empty().insert(v),
        Type::Fun(a, b) => vars_of(*a).union(vars_of(*b)),
        Type::Product(a, b) => vars_of(*a).union(vars_of(*b)),
        Type::Instantiated(a, _) => vars_of(*a),
        _ => Set::empty(),
    }
}

pub proof fn lemma_vars_finite(t: Type)
    ensures
        vars_of(t).finite(),
    decreases t,
{
    match t {
        Type::Fun(a, b) => {
            lemma_vars_finite(*a);
            lemma_vars_finite(*b);
        }
        Type::Product(a, b) => {
            lemma_vars_finite(*a);
            lemma_vars_finite(*b);
        }
        Type::Instantiated(a, _) => {
            lemma_vars_finite(*a);
        }
        _ => {}
    }
}

/// Well-formedness of a closed type: every range has ordered bounds.
pub open spec fn wf_ground(g: GroundType) -> bool
    decreases g,
{
    match g {
        GroundType::Range(lo, hi) => lo <= hi,
        GroundType::Fun(a, b) => wf_ground(*a) && wf_ground(*b),
        GroundType::Product(a, b) => wf_ground(*a) && wf_ground(*b),
        _ => true,
    }
}

/// Lookup in an instantiation context, the outermost entry with the key
/// winning.
pub open spec fn spec_bindings_get(b: Bindings, n: NameId) -> Option<GroundType>
    decreases b,
{
    match b {
        Bindings::Nil => None,
        Bindings::Cons(m, g, tail) => if m == n {
            Some(g)
        } else {
            spec_bindings_get(*tail, n)
        },
    }
}

/// Well-formedness of an instantiation context: unique keys, ordered ranges
/// in every value.
pub open spec fn wf_bindings(b: Bindings) -> bool
    decreases b,
{
    match b {
        Bindings::Nil => true,
        Bindings::Cons(n, g, tail) => wf_ground(g) && spec_bindings_get(*tail, n) is None
            && wf_bindings(*tail),
    }
}

/// Well-formedness of a type: every range has ordered bounds and every
/// instantiation context is well-formed.
pub open spec fn wf_type(t: Type) -> bool
    decreases t,
{
    match t {
        Type::Range(lo, hi) => lo <= hi,
        Type::Fun(a, b) => wf_type(*a) && wf_type(*b),
        Type::Product(a, b) => wf_type(*a) && wf_type(*b),
        Type::Instantiated(a, b) => wf_type(*a) && wf_bindings(b),
        _ => true,
    }
}

/// A closed type: no placeholder and no instantiation context anywhere.
/// Closed types are the domain of the reflexivity and absorption laws.
pub open spec fn closed_type(t: Type) -> bool
    decreases t,
{
    match t {
        Type::Var(_, _) => false,
        Type::Instantiated(_, _) => false,
        Type::Fun(a, b) => closed_type(*a) && closed_type(*b),
        Type::Product(a, b) => closed_type(*a) && closed_type(*b),
        _ => true,
    }
}

/// The type a closed binding value stands for.
pub open spec fn spec_ground_to_type(g: GroundType) -> Type
    decreases g,
{
    match g {
        GroundType::Invalid => Type::Invalid,
        GroundType::Number => Type::Number,
        GroundType::Range(lo, hi) => Type::Range(lo, hi),
        GroundType::Fun(a, b) => Type::Fun(
            Box::new(spec_ground_to_type(*a)),
            Box::new(spec_ground_to_type(*b)),
        ),
        GroundType::Product(a, b) => Type::Product(
            Box::new(spec_ground_to_type(*a)),
            Box::new(spec_ground_to_type(*b)),
        ),
    }
}

pub proof fn lemma_ground_embed(g: GroundType)
    ensures
        names_of(spec_ground_to_type(g)) == 0,
        vars_of(spec_ground_to_type(g)) =~= Set::<UniVar>::empty(),
        closed_type(spec_ground_to_type(g)),
        wf_ground(g) ==> wf_type(spec_ground_to_type(g)),
    decreases g,
{
    match g {
        GroundType::Fun(a, b) => {
            lemma_ground_embed(*a);
            lemma_ground_embed(*b);
        }
        GroundType::Product(a, b) => {
            lemma_ground_embed(*a);
            lemma_ground_embed(*b);
        }
        _ => {}
    }
}

impl Clone for GroundType {
    fn clone(&self) -> (res: Self)
        ensures
            res == *self,
        decreases *self,
    {
        match self {
            GroundType::Invalid => GroundType::Invalid,
            GroundType::Number => GroundType::Number,
            GroundType::Range(lo, hi) => GroundType::Range(*lo, *hi),
            GroundType::Fun(a, b) => GroundType::Fun(
                Box::new((**a).clone()),
                Box::new((**b).clone()),
            ),
            GroundType::Product(a, b) => GroundType::Product(
                Box::new((**a).clone()),
                Box::new((**b).clone()),
            ),
        }
    }
}

impl Clone for Bindings {
    fn clone(&self) -> (res: Self)
        ensures
            res == *self,
        decreases *self,
    {
        match self {
            Bindings::Nil => Bindings::Nil,
            Bindings::Cons(n, g, tail) => Bindings::Cons(*n, g.clone(), Box::new((**tail).clone())),
        }
    }
}

impl Clone for Type {
    fn clone(&self) -> (res: Self)
        ensures
            res == *self,
        decreases *self,
    {
        match self {
            Type::Invalid => Type::Invalid,
            Type::Number => Type::Number,
            Type::Range(lo, hi) => Type::Range(*lo, *hi),
            Type::Name(n) => Type::Name(*n),
            Type::Fun(a, b) => Type::Fun(Box::new((**a).clone()), Box::new((**b).clone())),
            Type::Product(a, b) => Type::Product(Box::new((**a).clone()), Box::new((**b).clone())),
            Type::Var(m, v) => Type::Var(*m, *v),
            Type::Instantiated(a, b) => Type::Instantiated(Box::new((**a).clone()), b.clone()),
        }
    }
}

impl Bindings {
    /// Whether this context binds no name at all.
    pub fn is_empty(&self) -> (res: bool)
        ensures
            res == (*self matches Bindings::Nil),
    {
        match self {
            Bindings::Nil => true,
            Bindings::Cons(_, _, _) => false,
        }
    }

    /// The value stored under `n`, if any.
    pub fn get(&self, n: NameId) -> (res: Option<&GroundType>)
        ensures
            match res {
                Some(g) => spec_bindings_get(*self, n) == Some(*g),
                None => spec_bindings_get(*self, n) is None,
            },
        decreases *self,
    {
        match self {
            Bindings::Nil => None,
            Bindings::Cons(m, g, tail) => if m.0 == n.0 {
                Some(g)
            } else {
                tail.get(n)
            },
        }
    }

    /// Whether `n` is bound in this context.
    pub fn contains(&self, n: NameId) -> (res: bool)
        ensures
            res == (spec_bindings_get(*self, n) is Some),
        decreases *self,
    {
        self.get(n).is_some()
    }

    /// Union of two contexts: every name bound in either is bound in the
    /// result, entries of `inner` taking precedence over entries of `outer`
    /// for the same name.
    pub fn merge(outer: &Bindings, inner: &Bindings) -> (res: Bindings)
        requires
            wf_bindings(*outer),
            wf_bindings(*inner),
        ensures
            wf_bindings(res),
            forall|n: NameId| #[trigger] spec_bindings_get(res, n) == if spec_bindings_get(
                *inner,
                n,
            ) is Some {
                spec_bindings_get(*inner, n)
            } else {
                spec_bindings_get(*outer, n)
            },
            (*outer is Nil && *inner is Nil) ==> res is Nil,
        decreases *outer,
    {
        match outer {
            Bindings::Nil => inner.clone(),
            Bindings::Cons(n, g, tail) => {
                let rest = Bindings::merge(tail, inner);
                if rest.contains(*n) {
                    rest
                } else {
                    Bindings::Cons(*n, g.clone(), Box::new(rest))
                }
            }
        }
    }
}

/// Turn a closed binding value into the type it stands for.
pub fn ground_to_type(g: &GroundType) -> (res: Type)
    ensures
        res == spec_ground_to_type(*g),
    decreases *g,
{
    match g {
        GroundType::Invalid => Type::Invalid,
        GroundType::Number => Type::Number,
        GroundType::Range(lo, hi) => Type::Range(*lo, *hi),
        GroundType::Fun(a, b) => Type::Fun(Box::new(ground_to_type(a)), Box::new(ground_to_type(b))),
        GroundType::Product(a, b) => Type::Product(
            Box::new(ground_to_type(a)),
            Box::new(ground_to_type(b)),
        ),
    }
}

/// Every placeholder of a type re-tagged to the given mode: a stored type may
/// be re-read as rigid or mutable, because the mode is a view, not part of
/// the stored entry.
pub open spec fn spec_retag(m: Mutability, t: Type) -> Type
    decreases t,
{
    match t {
        Type::Var(_, v) => Type::Var(m, v),
        Type::Fun(a, b) => Type::Fun(Box::new(spec_retag(m, *a)), Box::new(spec_retag(m, *b))),
        Type::Product(a, b) => Type::Product(
            Box::new(spec_retag(m, *a)),
            Box::new(spec_retag(m, *b)),
        ),
        Type::Instantiated(a, b) => Type::Instantiated(Box::new(spec_retag(m, *a)), b),
        _ => t,
    }
}

pub proof fn lemma_retag_closed(m: Mutability, t: Type)
    requires
        closed_type(t),
    ensures
        spec_retag(m, t) == t,
    decreases t,
{
    match t {
        Type::Fun(a, b) => {
            lemma_retag_closed(m, *a);
            lemma_retag_closed(m, *b);
        }
        Type::Product(a, b) => {
            lemma_retag_closed(m, *a);
            lemma_retag_closed(m, *b);
        }
        _ => {}
    }
}

pub proof fn lemma_retag_measures(m: Mutability, t: Type)
    ensures
        size_of(spec_retag(m, t)) == size_of(t),
        names_of(spec_retag(m, t)) == names_of(t),
        vars_of(spec_retag(m, t)) =~= vars_of(t),
        wf_type(t) ==> wf_type(spec_retag(m, t)),
    decreases t,
{
    match t {
        Type::Fun(a, b) => {
            lemma_retag_measures(m, *a);
            lemma_retag_measures(m, *b);
        }
        Type::Product(a, b) => {
            lemma_retag_measures(m, *a);
            lemma_retag_measures(m, *b);
        }
        Type::Instantiated(a, _) => {
            lemma_retag_measures(m, *a);
        }
        _ => {}
    }
}

pub fn retag(m: Mutability, t: &Type) -> (res: Type)
    ensures
        res == spec_retag(m, *t),
    decreases *t,
{
    match t {
        Type::Var(_, v) => Type::Var(m, *v),
        Type::Fun(a, b) => Type::Fun(Box::new(retag(m, a)), Box::new(retag(m, b))),
        Type::Product(a, b) => Type::Product(Box::new(retag(m, a)), Box::new(retag(m, b))),
        Type::Instantiated(a, b) => Type::Instantiated(Box::new(retag(m, a)), b.clone()),
        _ => t.clone(),
    }
}

/// Every occurrence of the placeholder `v` replaced by `r`, re-tagged to the
/// occurrence's own mode.
pub open spec fn spec_subst_var(v: UniVar, r: Type, t: Type) -> Type
    decreases t,
{
    match t {
        Type::Var(m, w) => if w == v {
            spec_retag(m, r)
        } else {
            t
        },
        Type::Fun(a, b) => Type::Fun(
            Box::new(spec_subst_var(v, r, *a)),
            Box::new(spec_subst_var(v, r, *b)),
        ),
        Type::Product(a, b) => Type::Product(
            Box::new(spec_subst_var(v, r, *a)),
            Box::new(spec_subst_var(v, r, *b)),
        ),
        Type::Instantiated(a, b) => Type::Instantiated(Box::new(spec_subst_var(v, r, *a)), b),
        _ => t,
    }
}

pub proof fn lemma_subst_var_props(v: UniVar, r: Type, t: Type)
    ensures
        vars_of(spec_subst_var(v, r, t)).subset_of(vars_of(t).remove(v).union(vars_of(r))),
        names_of(r) == 0 ==> names_of(spec_subst_var(v, r, t)) <= names_of(t),
        wf_type(t) && wf_type(r) ==> wf_type(spec_subst_var(v, r, t)),
        !vars_of(t).contains(v) ==> spec_subst_var(v, r, t) == t,
    decreases t,
{
    lemma_retag_measures(Mutability::Rigid, r);
    match t {
        Type::Var(m, w) => {
            if w == v {
                lemma_retag_measures(m, r);
            }
        }
        Type::Fun(a, b) => {
            lemma_subst_var_props(v, r, *a);
            lemma_subst_var_props(v, r, *b);
        }
        Type::Product(a, b) => {
            lemma_subst_var_props(v, r, *a);
            lemma_subst_var_props(v, r, *b);
        }
        Type::Instantiated(a, _) => {
            lemma_subst_var_props(v, r, *a);
        }
        _ => {}
    }
}

pub fn subst_var(v: UniVar, r: &Type, t: &Type) -> (res: Type)
    ensures
        res == spec_subst_var(v, *r, *t),
    decreases *t,
{
    match t {
        Type::Var(m, w) => if *w == v {
            retag(*m, r)
        } else {
            Type::Var(*m, *w)
        },
        Type::Fun(a, b) => Type::Fun(Box::new(subst_var(v, r, a)), Box::new(subst_var(v, r, b))),
        Type::Product(a, b) => Type::Product(
            Box::new(subst_var(v, r, a)),
            Box::new(subst_var(v, r, b)),
        ),
        Type::Instantiated(a, b) => Type::Instantiated(Box::new(subst_var(v, r, a)), b.clone()),
        _ => t.clone(),
    }
}

} // verus!
