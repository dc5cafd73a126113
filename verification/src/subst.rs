//! The substitution store: the single write-once map from unification
//! placeholder to the type (and instantiation context) it was resolved
//! under. Entries are appended, never overwritten, and a stored type never
//! mentions a placeholder that was already bound when the entry was made,
//! which is what makes full resolution through the store terminate.

use vstd::prelude::*;

use crate::types::{
    retag, spec_retag, vars_of, wf_bindings, wf_type, Bindings, Mutability, Type, UniVar,
};
use crate::types::size_of as type_size;

verus! {

/// Whether some entry of the store binds `v`.
pub open spec fn spec_contains_var(s: Seq<(UniVar, Bindings, Type)>, v: UniVar) -> bool {
    exists|i: int| 0 <= i < s.len() && (#[trigger] s[i]).0 == v
}

/// Whether no placeholder of `t` is bound by the store: such a type reads
/// the same before and after resolution.
pub open spec fn clean_type(s: Seq<(UniVar, Bindings, Type)>, t: Type) -> bool {
    forall|w: UniVar| #[trigger] vars_of(t).contains(w) ==> !spec_contains_var(s, w)
}

/// Every placeholder of `t` bound by the store sits at index `floor` or
/// later; entries only ever mention placeholders bound after them.
pub open spec fn floor_ok(s: Seq<(UniVar, Bindings, Type)>, t: Type, floor: int) -> bool {
    forall|i: int|
        0 <= i < s.len() && vars_of(t).contains((#[trigger] s[i]).0) ==> i >= floor
}

/// The type the store binds `v` to, when it binds it at all.
pub open spec fn stored_type(s: Seq<(UniVar, Bindings, Type)>, v: UniVar) -> Type {
    let i = choose|i: int| 0 <= i < s.len() && (#[trigger] s[i]).0 == v;
    s[i].2
}

/// The substitution store.
#[derive(Debug)]
pub struct Subst {
    pub entries: Vec<(UniVar, Bindings, Type)>,
}

impl Subst {
    /// The store invariant: keys are unique, every stored context and type
    /// is well-formed, and a stored type mentions no placeholder bound at
    /// the same index or earlier.
    pub open spec fn inv(self) -> bool {
        &&& forall|i: int, j: int|
            0 <= i < j < self.entries@.len() ==> (#[trigger] self.entries@[i]).0 != (
            #[trigger] self.entries@[j]).0
        &&& forall|i: int|
            0 <= i < self.entries@.len() ==> wf_bindings((#[trigger] self.entries@[i]).1)
                && wf_type(self.entries@[i].2)
        &&& forall|i: int, j: int|
            0 <= j <= i < self.entries@.len() ==> !vars_of((#[trigger] self.entries@[i]).2).contains(
                (#[trigger] self.entries@[j]).0,
            )
    }

    pub fn new() -> (res: Self)
        ensures
            res.entries@.len() == 0,
            res.inv(),
    {
        Subst { entries: Vec::new() }
    }

    pub fn len(&self) -> (res: usize)
        ensures
            res == self.entries@.len(),
    {
        self.entries.len()
    }

    /// The index of the entry binding `v`, if there is one.
    pub fn find(&self, v: UniVar) -> (res: Option<usize>)
        ensures
            match res {
                Some(i) => 0 <= i < self.entries@.len() && self.entries@[i as int].0 == v,
                None => !spec_contains_var(self.entries@, v),
            },
    {
        let mut i: usize = 0;
        while i < self.entries.len()
            invariant
                i <= self.entries@.len(),
                forall|j: int| 0 <= j < i ==> (#[trigger] self.entries@[j]).0 != v,
            decreases self.entries@.len() - i,
        {
            let w = self.entries[i].0;
            if w == v {
                return Some(i);
            }
            i = i + 1;
        }
        None
    }

    pub fn contains(&self, v: UniVar) -> (res: bool)
        ensures
            res == spec_contains_var(self.entries@, v),
    {
        self.find(v).is_some()
    }

    /// The stored binding for `v`, if any, with the type re-tagged to the
    /// requested mode: a type resolved under a mutable context may be
    /// re-read as if rigid and vice versa.
    pub fn lookup(&self, m: Mutability, v: UniVar) -> (res: Option<(Bindings, Type)>)
        requires
            self.inv(),
        ensures
            (res is Some) == spec_contains_var(self.entries@, v),
            forall|i: int|
                0 <= i < self.entries@.len() && (#[trigger] self.entries@[i]).0 == v ==> res
                    == Some((self.entries@[i].1, spec_retag(m, self.entries@[i].2))),
    {
        match self.find(v) {
            None => None,
            Some(i) => {
                proof {
                    assert forall|i2: int|
                        0 <= i2 < self.entries@.len() && (#[trigger] self.entries@[i2]).0 == v
                        implies i2 == i by {
                        if i2 < i as int {
                            assert(self.entries@[i2].0 != self.entries@[i as int].0);
                        } else if i2 > i as int {
                            assert(self.entries@[i as int].0 != self.entries@[i2].0);
                        }
                    }
                }
                let (_, b, t) = &self.entries[i];
                Some((b.clone(), retag(m, t)))
            }
        }
    }

    /// Store a binding for `v`. The caller must have checked that `v` has no
    /// entry yet — committing twice is a solver bug, not a user error — and
    /// that the stored type neither mentions `v` itself nor any placeholder
    /// that is already bound.
    pub fn commit(&mut self, b: Bindings, v: UniVar, ty: Type)
        requires
            old(self).inv(),
            !spec_contains_var(old(self).entries@, v),
            wf_bindings(b),
            wf_type(ty),
            clean_type(old(self).entries@, ty),
            !vars_of(ty).contains(v),
        ensures
            final(self).inv(),
            final(self).entries@ == old(self).entries@.push((v, b, ty)),
    {
        self.entries.push((v, b, ty));
        proof {
            let s = self.entries@;
            let n = s.len() - 1;
            assert forall|i: int, j: int| 0 <= j <= i < s.len() implies !vars_of(
                (#[trigger] s[i]).2,
            ).contains((#[trigger] s[j]).0) by {
                if i < n {
                } else {
                    if vars_of(ty).contains(s[j].0) {
                        if j < n {
                            assert(spec_contains_var(old(self).entries@, s[j].0));
                        }
                    }
                }
            }
        }
    }

    /// `t` with every bound placeholder replaced, hereditarily, by what the
    /// store resolved it to, re-tagged to the occurrence's mode and wrapped
    /// in the instantiation context the entry was made under. The result
    /// mentions only unbound placeholders; a type that was already clean
    /// comes back unchanged.
    pub fn resolve(&self, t: &Type, floor: Ghost<int>) -> (res: Type)
        requires
            self.inv(),
            wf_type(*t),
            floor@ >= 0,
            floor_ok(self.entries@, *t, floor@),
        ensures
            wf_type(res),
            clean_type(self.entries@, res),
            clean_type(self.entries@, *t) ==> res == *t,
            match *t {
                Type::Var(m, v) => forall|i: int|
                    0 <= i < self.entries@.len() && (#[trigger] self.entries@[i]).0 == v
                        && self.entries@[i].1 is Nil && clean_type(
                        self.entries@,
                        self.entries@[i].2,
                    ) ==> res == spec_retag(m, self.entries@[i].2),
                _ => true,
            },
        decreases self.entries@.len() - floor@, type_size(*t),
    {
        match t {
            Type::Var(m, v) => {
                match self.find(*v) {
                    None => {
                        let r = Type::Var(*m, *v);
                        proof {
                            assert(vars_of(*t).contains(*v));
                            assert forall|w: UniVar| #[trigger] vars_of(r).contains(w)
                                implies !spec_contains_var(self.entries@, w) by {
                                assert(w == *v);
                            }
                            assert(clean_type(self.entries@, r));
                        }
                        r
                    }
                    Some(i) => {
                        proof {
                            assert(vars_of(*t).contains(*v));
                            assert(spec_contains_var(self.entries@, *v));
                            assert(i >= floor@);
                            assert forall|k: int|
                                0 <= k < self.entries@.len() && vars_of(
                                    self.entries@[i as int].2,
                                ).contains((#[trigger] self.entries@[k]).0) implies k >= i + 1 by {
                                if k <= i {
                                    assert(!vars_of(self.entries@[i as int].2).contains(
                                        self.entries@[k].0,
                                    ));
                                }
                            }
                        }
                        let inner = self.resolve(&self.entries[i].2, Ghost(i as int + 1));
                        let rt = retag(*m, &inner);
                        proof {
                            crate::types::lemma_retag_measures(*m, inner);
                            if clean_type(self.entries@, self.entries@[i as int].2) {
                                assert(inner == self.entries@[i as int].2);
                            }
                            assert forall|i2: int|
                                0 <= i2 < self.entries@.len() && (#[trigger] self.entries@[i2]).0
                                    == *v implies i2 == i by {
                                if i2 < i {
                                    assert(self.entries@[i2].0 != self.entries@[i as int].0);
                                } else if i2 > i {
                                    assert(self.entries@[i as int].0 != self.entries@[i2].0);
                                }
                            }
                        }
                        let (_, b, _) = &self.entries[i];
                        let out = if b.is_empty() {
                            rt
                        } else {
                            Type::Instantiated(Box::new(rt), b.clone())
                        };
                        proof {
                            assert(vars_of(out) =~= vars_of(inner));
                            assert forall|w: UniVar| #[trigger] vars_of(out).contains(w)
                                implies !spec_contains_var(self.entries@, w) by {
                                assert(vars_of(inner).contains(w));
                            }
                            assert(clean_type(self.entries@, out));
                        }
                        out
                    }
                }
            }
            Type::Fun(a, b) => {
                proof {
                    lemma_floor_sub(self.entries@, *t, floor@);
                }
                let ra = self.resolve(a, floor);
                let rb = self.resolve(b, floor);
                proof {
                    if clean_type(self.entries@, *t) {
                        lemma_clean_sub(self.entries@, *t);
                    }
                }
                let out = Type::Fun(Box::new(ra), Box::new(rb));
                proof {
                    assert forall|w: UniVar| #[trigger] vars_of(out).contains(w)
                        implies !spec_contains_var(self.entries@, w) by {
                        assert(vars_of(ra).contains(w) || vars_of(rb).contains(w));
                    }
                }
                out
            }
            Type::Product(a, b) => {
                proof {
                    lemma_floor_sub(self.entries@, *t, floor@);
                }
                let ra = self.resolve(a, floor);
                let rb = self.resolve(b, floor);
                proof {
                    if clean_type(self.entries@, *t) {
                        lemma_clean_sub(self.entries@, *t);
                    }
                }
                let out = Type::Product(Box::new(ra), Box::new(rb));
                proof {
                    assert forall|w: UniVar| #[trigger] vars_of(out).contains(w)
                        implies !spec_contains_var(self.entries@, w) by {
                        assert(vars_of(ra).contains(w) || vars_of(rb).contains(w));
                    }
                }
                out
            }
            Type::Instantiated(a, b) => {
                proof {
                    lemma_floor_sub(self.entries@, *t, floor@);
                }
                let ra = self.resolve(a, floor);
                proof {
                    if clean_type(self.entries@, *t) {
                        lemma_clean_sub(self.entries@, *t);
                    }
                }
                let out = Type::Instantiated(Box::new(ra), b.clone());
                proof {
                    assert forall|w: UniVar| #[trigger] vars_of(out).contains(w)
                        implies !spec_contains_var(self.entries@, w) by {
                        assert(vars_of(ra).contains(w));
                    }
                }
                out
            }
            Type::Invalid => Type::Invalid,
            Type::Number => Type::Number,
            Type::Range(lo, hi) => Type::Range(*lo, *hi),
            Type::Name(n) => Type::Name(*n),
        }
    }
}

/// Growing the store by one entry binds exactly one more placeholder.
pub proof fn lemma_contains_push(s: Seq<(UniVar, Bindings, Type)>, e: (UniVar, Bindings, Type))
    ensures
        forall|w: UniVar|
            #[trigger] spec_contains_var(s.push(e), w) <==> (spec_contains_var(s, w) || w == e.0),
{
    assert forall|w: UniVar| #[trigger] spec_contains_var(s.push(e), w) <==> (spec_contains_var(
        s,
        w,
    ) || w == e.0) by {
        if spec_contains_var(s.push(e), w) {
            let i = choose|i: int| 0 <= i < s.push(e).len() && (#[trigger] s.push(e)[i]).0 == w;
            if i < s.len() {
                assert(s[i].0 == w);
            } else {
                assert(s.push(e)[i] == e);
            }
        }
        if spec_contains_var(s, w) {
            let i = choose|i: int| 0 <= i < s.len() && (#[trigger] s[i]).0 == w;
            assert(s.push(e)[i].0 == w);
        }
        if w == e.0 {
            assert(s.push(e)[s.len() as int].0 == w);
        }
    }
}

/// Subterms inherit a type's floor and cleanliness bounds, because their
/// placeholders are among the type's own.
proof fn lemma_floor_sub(s: Seq<(UniVar, Bindings, Type)>, t: Type, floor: int)
    requires
        floor_ok(s, t, floor),
    ensures
        forall|a: Type, b: Type|
            t == Type::Fun(Box::new(a), Box::new(b)) ==> floor_ok(s, a, floor) && floor_ok(
                s,
                b,
                floor,
            ),
        forall|a: Type, b: Type|
            t == Type::Product(Box::new(a), Box::new(b)) ==> floor_ok(s, a, floor) && floor_ok(
                s,
                b,
                floor,
            ),
        forall|a: Type, b: Bindings|
            t == Type::Instantiated(Box::new(a), b) ==> floor_ok(s, a, floor),
{
}

proof fn lemma_clean_sub(s: Seq<(UniVar, Bindings, Type)>, t: Type)
    requires
        clean_type(s, t),
    ensures
        forall|a: Type, b: Type|
            t == Type::Fun(Box::new(a), Box::new(b)) ==> clean_type(s, a) && clean_type(s, b),
        forall|a: Type, b: Type|
            t == Type::Product(Box::new(a), Box::new(b)) ==> clean_type(s, a) && clean_type(s, b),
        forall|a: Type, b: Bindings|
            t == Type::Instantiated(Box::new(a), b) ==> clean_type(s, a),
{
    assert forall|a: Type, b: Type|
        t == Type::Fun(Box::new(a), Box::new(b)) implies clean_type(s, a) && clean_type(
        s,
        b,
    ) by {
        assert forall|w: UniVar| #[trigger] vars_of(a).contains(w) implies !spec_contains_var(
            s,
            w,
        ) by {
            assert(vars_of(t).contains(w));
        }
        assert forall|w: UniVar| #[trigger] vars_of(b).contains(w) implies !spec_contains_var(
            s,
            w,
        ) by {
            assert(vars_of(t).contains(w));
        }
    }
    assert forall|a: Type, b: Type|
        t == Type::Product(Box::new(a), Box::new(b)) implies clean_type(s, a) && clean_type(
        s,
        b,
    ) by {
        assert forall|w: UniVar| #[trigger] vars_of(a).contains(w) implies !spec_contains_var(
            s,
            w,
        ) by {
            assert(vars_of(t).contains(w));
        }
        assert forall|w: UniVar| #[trigger] vars_of(b).contains(w) implies !spec_contains_var(
            s,
            w,
        ) by {
            assert(vars_of(t).contains(w));
        }
    }
    assert forall|a: Type, b: Bindings|
        t == Type::Instantiated(Box::new(a), b) implies clean_type(s, a) by {
        assert forall|w: UniVar| #[trigger] vars_of(a).contains(w) implies !spec_contains_var(
            s,
            w,
        ) by {
            assert(vars_of(t).contains(w));
        }
    }
}

} // verus!
