//! The unifier: structural comparison of two types under an instantiation
//! context, with range narrowing, occurs check, and placeholder commitment.
//! Failures become diagnostics; the session never stops early.
//!
//! Both inputs are first resolved through the substitution store, so that
//! a bound placeholder is read through its entry — merged with the entry's
//! own context — rather than overwritten; inside the main loop every
//! placeholder that is met is therefore still unbound, and each commitment
//! is at once substituted through the remaining work.

use vstd::prelude::*;

use crate::subst::{clean_type, lemma_contains_push, spec_contains_var, Subst};
use crate::types::{
    closed_type, ground_to_type, lemma_ground_embed, lemma_retag_closed, lemma_subst_var_props,
    lemma_vars_finite, names_of, size_of, spec_bindings_get, spec_subst_var, subst_var, vars_of,
    wf_bindings, wf_ground, wf_type, Because, Bindings, Message, MessageKind, Mutability, NameId,
    Span, Type, UniVar,
};

verus! {

/// Exactly the diagnostics unification of two closed types produces, in
/// order: contained ranges, a range under `Number`, `Number` with itself,
/// matching names, matching shapes componentwise and `Invalid` on either
/// side succeed silently; everything else is reported, component clashes
/// each on their own.
pub open spec fn closed_msgs(span: Span, e: Type, a: Type) -> Seq<Message>
    decreases size_of(e) + size_of(a),
{
    if e is Invalid || a is Invalid {
        Seq::empty()
    } else {
        match (e, a) {
            (Type::Range(l1, h1), Type::Range(l2, h2)) => if l1 <= l2 && h1 >= h2 {
                Seq::empty()
            } else {
                seq![Message { span, kind: MessageKind::NarrowRange((l1, h1), (l2, h2)) }]
            },
            (Type::Number, Type::Range(_, _)) => Seq::empty(),
            (Type::Number, Type::Number) => Seq::empty(),
            (Type::Name(n), Type::Name(m)) => if n == m {
                Seq::empty()
            } else {
                seq![Message { span, kind: MessageKind::Incompatible(None, None) }]
            },
            (Type::Fun(t1, u1), Type::Fun(t2, u2)) => closed_msgs(span, *t1, *t2) + closed_msgs(
                span,
                *u1,
                *u2,
            ),
            (Type::Product(t1, u1), Type::Product(t2, u2)) => closed_msgs(span, *t1, *t2)
                + closed_msgs(span, *u1, *u2),
            _ => seq![Message { span, kind: MessageKind::Incompatible(Some(e), Some(a)) }],
        }
    }
}

/// Reflexivity: unifying any closed type with itself produces no diagnostic.
pub proof fn lemma_unify_reflexive(span: Span, t: Type)
    requires
        closed_type(t),
    ensures
        closed_msgs(span, t, t) == Seq::<Message>::empty(),
    decreases t,
{
    match t {
        Type::Fun(a, b) => {
            lemma_unify_reflexive(span, *a);
            lemma_unify_reflexive(span, *b);
            assert(closed_msgs(span, t, t) =~= Seq::<Message>::empty());
        }
        Type::Product(a, b) => {
            lemma_unify_reflexive(span, *a);
            lemma_unify_reflexive(span, *b);
            assert(closed_msgs(span, t, t) =~= Seq::<Message>::empty());
        }
        _ => {}
    }
}

/// Invalid absorbs: unification against `Invalid`, on either side, is
/// silent, so one failure does not cascade into further diagnostics.
pub proof fn lemma_invalid_absorbs(span: Span, t: Type)
    ensures
        closed_msgs(span, Type::Invalid, t) == Seq::<Message>::empty(),
        closed_msgs(span, t, Type::Invalid) == Seq::<Message>::empty(),
{
}

/// Number absorption is asymmetric: any range is accepted where `Number` is
/// expected, but `Number` is not accepted where a range is expected.
pub proof fn lemma_number_absorption(span: Span, lo: i64, hi: i64)
    ensures
        closed_msgs(span, Type::Number, Type::Range(lo, hi)) == Seq::<Message>::empty(),
        closed_msgs(span, Type::Range(lo, hi), Type::Number) == seq![
            Message {
                span,
                kind: MessageKind::Incompatible(Some(Type::Range(lo, hi)), Some(Type::Number)),
            },
        ],
{
}

/// Range containment: the actual interval must lie inside the expected one;
/// exactly one narrow-range diagnostic citing both bound pairs otherwise.
pub proof fn lemma_range_containment(span: Span, l1: i64, h1: i64, l2: i64, h2: i64)
    ensures
        (l1 <= l2 && h1 >= h2) ==> closed_msgs(span, Type::Range(l1, h1), Type::Range(l2, h2))
            == Seq::<Message>::empty(),
        !(l1 <= l2 && h1 >= h2) ==> closed_msgs(span, Type::Range(l1, h1), Type::Range(l2, h2))
            == seq![Message { span, kind: MessageKind::NarrowRange((l1, h1), (l2, h2)) }],
{
}

/// What one step on an unbound placeholder does. A mutable placeholder is
/// poisoned to `Invalid` under an occurs-check violation, with exactly one
/// recursive-inference diagnostic; it is committed to the other side
/// otherwise, with its cause recorded and nothing reported. A rigid
/// placeholder is deferred to the worklist, wrapped in the current context
/// when there is one; `swapped` tells which side of the deferred pair the
/// placeholder stood on.
pub open spec fn unbound_var_step(
    pre: Unifier,
    post: Unifier,
    span: Span,
    mo: Mutability,
    v: UniVar,
    inst: Bindings,
    u: Type,
    swapped: bool,
) -> bool {
    if mo == Mutability::Mutable {
        if vars_of(u).contains(v) {
            &&& post.subst.entries@ == pre.subst.entries@.push((v, inst, Type::Invalid))
            &&& post.messages@ == pre.messages@ + seq![
                Message { span, kind: MessageKind::RecursiveInference(v, u) },
            ]
            &&& post.worklist@ == pre.worklist@
            &&& post.causes@ == pre.causes@
        } else {
            &&& post.subst.entries@ == pre.subst.entries@.push((v, inst, u))
            &&& post.messages@ == pre.messages@
            &&& post.worklist@ == pre.worklist@
            &&& post.causes@ == pre.causes@.push((v, Because::Unified(span)))
        }
    } else {
        let wrapped = if inst is Nil {
            Type::Var(mo, v)
        } else {
            Type::Instantiated(Box::new(Type::Var(mo, v)), inst)
        };
        &&& post.subst.entries@ == pre.subst.entries@
        &&& post.messages@ == pre.messages@
        &&& post.causes@ == pre.causes@
        &&& post.worklist@ == pre.worklist@.push(
            if swapped {
                (span, u, wrapped)
            } else {
                (span, wrapped, u)
            },
        )
    }
}

/// One pair of types waiting to be compared under a context.
struct Pair {
    inst: Bindings,
    expected: Type,
    actual: Type,
}

spec fn stack_size(s: Seq<Pair>) -> nat
    decreases s.len(),
{
    if s.len() == 0 {
        0
    } else {
        stack_size(s.drop_last()) + size_of(s.last().expected) + size_of(s.last().actual)
    }
}

spec fn stack_names(s: Seq<Pair>) -> nat
    decreases s.len(),
{
    if s.len() == 0 {
        0
    } else {
        stack_names(s.drop_last()) + names_of(s.last().expected) + names_of(s.last().actual)
    }
}

spec fn stack_vars(s: Seq<Pair>) -> Set<UniVar>
    decreases s.len(),
{
    if s.len() == 0 {
        Set::empty()
    } else {
        stack_vars(s.drop_last()).union(vars_of(s.last().expected)).union(vars_of(s.last().actual))
    }
}

/// The diagnostics still owed by a stack of closed pairs, in pop order.
spec fn stack_msgs(s: Seq<Pair>, span: Span) -> Seq<Message>
    decreases s.len(),
{
    if s.len() == 0 {
        Seq::empty()
    } else {
        closed_msgs(span, s.last().expected, s.last().actual) + stack_msgs(s.drop_last(), span)
    }
}

spec fn stack_wf(s: Seq<Pair>, entries: Seq<(UniVar, Bindings, Type)>) -> bool {
    forall|i: int|
        0 <= i < s.len() ==> {
            &&& wf_type((#[trigger] s[i]).expected)
            &&& wf_type(s[i].actual)
            &&& wf_bindings(s[i].inst)
            &&& clean_type(entries, s[i].expected)
            &&& clean_type(entries, s[i].actual)
        }
}

spec fn stack_closed(s: Seq<Pair>) -> bool {
    forall|i: int|
        0 <= i < s.len() ==> closed_type((#[trigger] s[i]).expected) && closed_type(s[i].actual)
            && s[i].inst is Nil
}

spec fn stack_substituted(pre: Seq<Pair>, post: Seq<Pair>, v: UniVar, r: Type) -> bool {
    &&& post.len() == pre.len()
    &&& forall|i: int|
        0 <= i < pre.len() ==> {
            &&& (#[trigger] post[i]).inst == pre[i].inst
            &&& post[i].expected == spec_subst_var(v, r, pre[i].expected)
            &&& post[i].actual == spec_subst_var(v, r, pre[i].actual)
        }
}

proof fn lemma_stack_push(s: Seq<Pair>, p: Pair, span: Span)
    ensures
        stack_size(s.push(p)) == stack_size(s) + size_of(p.expected) + size_of(p.actual),
        stack_names(s.push(p)) == stack_names(s) + names_of(p.expected) + names_of(p.actual),
        stack_vars(s.push(p)) =~= stack_vars(s).union(vars_of(p.expected)).union(
            vars_of(p.actual),
        ),
        stack_msgs(s.push(p), span) == closed_msgs(span, p.expected, p.actual) + stack_msgs(
            s,
            span,
        ),
{
    assert(s.push(p).drop_last() =~= s);
    assert(s.push(p).last() == p);
}

proof fn lemma_stack_vars_elem(s: Seq<Pair>, i: int)
    requires
        0 <= i < s.len(),
    ensures
        vars_of(s[i].expected).subset_of(stack_vars(s)),
        vars_of(s[i].actual).subset_of(stack_vars(s)),
    decreases s.len(),
{
    if i == s.len() - 1 {
        assert(s.last() == s[i]);
    } else {
        lemma_stack_vars_elem(s.drop_last(), i);
        assert(s.drop_last()[i] == s[i]);
    }
}

proof fn lemma_stack_vars_elemwise(s: Seq<Pair>, allvars: Set<UniVar>)
    requires
        forall|i: int|
            0 <= i < s.len() ==> vars_of((#[trigger] s[i]).expected).union(
                vars_of(s[i].actual),
            ).subset_of(allvars),
    ensures
        stack_vars(s).subset_of(allvars),
    decreases s.len(),
{
    if s.len() > 0 {
        assert(forall|i: int|
            0 <= i < s.drop_last().len() ==> #[trigger] s.drop_last()[i] == s[i]);
        lemma_stack_vars_elemwise(s.drop_last(), allvars);
        assert(s.last() == s[s.len() - 1]);
    }
}

/// A closed type mentions no placeholder at all.
pub proof fn lemma_closed_novars(t: Type)
    requires
        closed_type(t),
    ensures
        vars_of(t) =~= Set::<UniVar>::empty(),
    decreases t,
{
    match t {
        Type::Fun(a, b) => {
            lemma_closed_novars(*a);
            lemma_closed_novars(*b);
        }
        Type::Product(a, b) => {
            lemma_closed_novars(*a);
            lemma_closed_novars(*b);
        }
        _ => {}
    }
}

pub proof fn lemma_novars_clean(s: Seq<(UniVar, Bindings, Type)>, t: Type)
    requires
        vars_of(t) =~= Set::<UniVar>::empty(),
    ensures
        clean_type(s, t),
{
}

/// Substituting a committed placeholder keeps a type clean for the grown
/// store, provided the replacement was clean and free of the placeholder.
proof fn lemma_clean_subst(
    s: Seq<(UniVar, Bindings, Type)>,
    e: (UniVar, Bindings, Type),
    r: Type,
    t: Type,
)
    requires
        clean_type(s, t),
        clean_type(s, r),
        !vars_of(r).contains(e.0),
    ensures
        clean_type(s.push(e), spec_subst_var(e.0, r, t)),
{
    lemma_contains_push(s, e);
    lemma_subst_var_props(e.0, r, t);
    assert forall|w: UniVar| #[trigger] vars_of(spec_subst_var(e.0, r, t)).contains(w)
        implies !spec_contains_var(s.push(e), w) by {
        assert(vars_of(t).remove(e.0).union(vars_of(r)).contains(w));
    }
}

/// A well-formed context stores only well-formed closed values.
proof fn lemma_bindings_get_wf(b: Bindings, n: NameId)
    requires
        wf_bindings(b),
        spec_bindings_get(b, n) is Some,
    ensures
        wf_ground(spec_bindings_get(b, n)->Some_0),
    decreases b,
{
    match b {
        Bindings::Nil => {}
        Bindings::Cons(m, _, tail) => {
            if m != n {
                lemma_bindings_get_wf(*tail, n);
            }
        }
    }
}

/// Whether the placeholder `v` occurs anywhere inside `t`. `Name`, `Number`,
/// `Range` and `Invalid` are always occurs-free; instantiation contexts
/// hold closed values, so only the base of an `Instantiated` is searched.
fn occurs(v: &UniVar, t: &Type) -> (res: bool)
    ensures
        res == vars_of(*t).contains(*v),
    decreases *t,
{
    match t {
        Type::Invalid | Type::Number => false,
        Type::Range(_, _) => false,
        Type::Name(_) => false,
        Type::Fun(a, b) => occurs(v, a) || occurs(v, b),
        Type::Product(a, b) => occurs(v, a) || occurs(v, b),
        Type::Instantiated(a, _) => occurs(v, a),
        Type::Var(_, w) => {
            let hit = *w == *v;
            proof {
                assert(vars_of(*t) =~= Set::empty().insert(*w));
            }
            hit
        }
    }
}

/// Replace a committed placeholder throughout the remaining work, so every
/// pending pair keeps reading through the newest store.
fn subst_stack(stack: &mut Vec<Pair>, v: UniVar, r: &Type)
    ensures
        stack_substituted(old(stack)@, final(stack)@, v, *r),
{
    let mut i: usize = 0;
    while i < stack.len()
        invariant
            i <= stack@.len(),
            stack@.len() == old(stack)@.len(),
            forall|j: int| i <= j < stack@.len() ==> #[trigger] stack@[j] == old(stack)@[j],
            forall|j: int|
                0 <= j < i ==> {
                    &&& (#[trigger] stack@[j]).inst == old(stack)@[j].inst
                    &&& stack@[j].expected == spec_subst_var(v, *r, old(stack)@[j].expected)
                    &&& stack@[j].actual == spec_subst_var(v, *r, old(stack)@[j].actual)
                },
        decreases stack@.len() - i,
    {
        let e = subst_var(v, r, &stack[i].expected);
        let a = subst_var(v, r, &stack[i].actual);
        let inst = stack[i].inst.clone();
        stack.set(i, Pair { inst, expected: e, actual: a });
        i = i + 1;
    }
}

/// A sequence is a prefix of itself and of anything it grows into.
pub proof fn lemma_seq_prefix_self<T>(s: Seq<T>)
    ensures
        s.is_prefix_of(s),
{
    assert(s.subrange(0, s.len() as int) =~= s);
}

pub proof fn lemma_seq_prefix_push<T>(s: Seq<T>, x: T)
    ensures
        s.is_prefix_of(s.push(x)),
{
    assert(s.push(x).subrange(0, s.len() as int) =~= s);
}

pub proof fn lemma_seq_prefix_concat<T>(s: Seq<T>, t: Seq<T>)
    ensures
        s.is_prefix_of(s + t),
{
    assert((s + t).subrange(0, s.len() as int) =~= s);
}

pub proof fn lemma_seq_prefix_trans<T>(a: Seq<T>, b: Seq<T>, c: Seq<T>)
    requires
        a.is_prefix_of(b),
        b.is_prefix_of(c),
    ensures
        a.is_prefix_of(c),
{
    assert(c.subrange(0, a.len() as int) =~= b.subrange(0, a.len() as int));
    assert(b.subrange(0, a.len() as int) =~= a);
}

/// After one placeholder step, every part of the unifier extends what was
/// there before.
proof fn lemma_step_prefixes(pre: Unifier, post: Unifier)
    requires
        post.subst.entries@ == pre.subst.entries@ || (exists|e: (UniVar, Bindings, Type)|
            post.subst.entries@ == #[trigger] pre.subst.entries@.push(e)),
        post.messages@ == pre.messages@ || (exists|m: Message|
            post.messages@ == pre.messages@ + seq![m]),
        post.causes@ == pre.causes@ || (exists|c: (UniVar, Because)|
            post.causes@ == #[trigger] pre.causes@.push(c)),
        post.worklist@ == pre.worklist@ || (exists|w: (Span, Type, Type)|
            post.worklist@ == #[trigger] pre.worklist@.push(w)),
    ensures
        pre.subst.entries@.is_prefix_of(post.subst.entries@),
        pre.messages@.is_prefix_of(post.messages@),
        pre.causes@.is_prefix_of(post.causes@),
        pre.worklist@.is_prefix_of(post.worklist@),
{
    if post.subst.entries@ == pre.subst.entries@ {
        lemma_seq_prefix_self(pre.subst.entries@);
    } else {
        let e = choose|e: (UniVar, Bindings, Type)|
            post.subst.entries@ == #[trigger] pre.subst.entries@.push(e);
        lemma_seq_prefix_push(pre.subst.entries@, e);
    }
    if post.messages@ == pre.messages@ {
        lemma_seq_prefix_self(pre.messages@);
    } else {
        let m = choose|m: Message| post.messages@ == pre.messages@ + seq![m];
        lemma_seq_prefix_concat(pre.messages@, seq![m]);
    }
    if post.causes@ == pre.causes@ {
        lemma_seq_prefix_self(pre.causes@);
    } else {
        let c = choose|c: (UniVar, Because)| post.causes@ == #[trigger] pre.causes@.push(c);
        lemma_seq_prefix_push(pre.causes@, c);
    }
    if post.worklist@ == pre.worklist@ {
        lemma_seq_prefix_self(pre.worklist@);
    } else {
        let w = choose|w: (Span, Type, Type)| post.worklist@ == #[trigger] pre.worklist@.push(w);
        lemma_seq_prefix_push(pre.worklist@, w);
    }
}

/// Everything one `unify` call promises about how it moved the unifier
/// from `pre` to `post`: the four components only ever grow; closed inputs
/// produce exactly the structural diagnostics and change nothing else; an
/// unbound placeholder on either side takes its `unbound_var_step`, and an
/// identical placeholder pair is a no-op; a bound placeholder is resolved
/// through the store, never overwritten. The solver's per-obligation
/// contract reuses this predicate for every obligation it reduces to a
/// unifier call.
pub open spec fn unify_effect(
    pre: Unifier,
    post: Unifier,
    span: Span,
    expected: Type,
    actual: Type,
) -> bool {
    &&& pre.subst.entries@.is_prefix_of(post.subst.entries@)
    &&& pre.messages@.is_prefix_of(post.messages@)
    &&& pre.causes@.is_prefix_of(post.causes@)
    &&& pre.worklist@.is_prefix_of(post.worklist@)
    // closed inputs: exactly the structural diagnostics, nothing else changed
    &&& (closed_type(expected) && closed_type(actual) ==> {
        &&& post.messages@ == pre.messages@ + closed_msgs(span, expected, actual)
        &&& post.subst.entries@ == pre.subst.entries@
        &&& post.worklist@ == pre.worklist@
        &&& post.causes@ == pre.causes@
    })
    // an unbound placeholder meets a store-clean type other than itself
    &&& match expected {
        Type::Var(mo, v) => (!spec_contains_var(pre.subst.entries@, v) && clean_type(
            pre.subst.entries@,
            actual,
        ) && actual != Type::Var(Mutability::Rigid, v) && actual != Type::Var(
            Mutability::Mutable,
            v,
        )) ==> unbound_var_step(pre, post, span, mo, v, Bindings::Nil, actual, false),
        _ => true,
    }
    // the symmetric case: an unbound placeholder on the actual side
    &&& match actual {
        Type::Var(mo2, w) => (!(expected is Var) && !spec_contains_var(pre.subst.entries@, w)
            && clean_type(pre.subst.entries@, expected)) ==> unbound_var_step(
            pre,
            post,
            span,
            mo2,
            w,
            Bindings::Nil,
            expected,
            true,
        ),
        _ => true,
    }
    // an identical, unbound placeholder pair is trivially equal: a no-op
    &&& match (expected, actual) {
        (Type::Var(mo, v), Type::Var(m2, w)) => (v == w && !spec_contains_var(
            pre.subst.entries@,
            v,
        )) ==> {
            &&& post.subst.entries@ == pre.subst.entries@
            &&& post.messages@ == pre.messages@
            &&& post.causes@ == pre.causes@
            &&& post.worklist@ == pre.worklist@
        },
        _ => true,
    }
    // a bound placeholder is resolved through the store, not overwritten
    &&& match expected {
        Type::Var(mo, v) => forall|i: int|
            0 <= i < pre.subst.entries@.len() && (#[trigger] pre.subst.entries@[i]).0 == v
                && pre.subst.entries@[i].1 is Nil && closed_type(pre.subst.entries@[i].2)
                && closed_type(actual) ==> {
                &&& post.messages@ == pre.messages@ + closed_msgs(
                    span,
                    pre.subst.entries@[i].2,
                    actual,
                )
                &&& post.subst.entries@ == pre.subst.entries@
                &&& post.worklist@ == pre.worklist@
                &&& post.causes@ == pre.causes@
            },
        _ => true,
    }
}

/// The unifier: the substitution store, the causes recorded for committed
/// placeholders, the worklist of deferred rigid pairs, and the diagnostic
/// sink. All four only ever grow; a stored binding is never overwritten.
#[derive(Debug)]
pub struct Unifier {
    pub subst: Subst,
    pub causes: Vec<(UniVar, Because)>,
    pub worklist: Vec<(Span, Type, Type)>,
    pub messages: Vec<Message>,
}

impl Unifier {
    pub open spec fn inv(self) -> bool {
        &&& self.subst.inv()
        &&& forall|i: int|
            0 <= i < self.worklist@.len() ==> wf_type((#[trigger] self.worklist@[i]).1) && wf_type(
                self.worklist@[i].2,
            )
    }

    pub fn new() -> (res: Self)
        ensures
            res.inv(),
            res.subst.entries@.len() == 0,
            res.causes@.len() == 0,
            res.worklist@.len() == 0,
            res.messages@.len() == 0,
    {
        Unifier {
            subst: Subst::new(),
            causes: Vec::new(),
            worklist: Vec::new(),
            messages: Vec::new(),
        }
    }

    /// One step against an unbound placeholder, as `unbound_var_step`
    /// states: commit, poison, or defer. Placeholders bound in the store
    /// never reach this point, because both sides were resolved through the
    /// store on entry and every commitment is substituted through the
    /// remaining work at once.
    fn var_step(
        &mut self,
        stack: &mut Vec<Pair>,
        span: Span,
        inst: Bindings,
        mo: Mutability,
        v: UniVar,
        other: Type,
        swapped: bool,
    )
        requires
            old(self).inv(),
            wf_bindings(inst),
            wf_type(other),
            !spec_contains_var(old(self).subst.entries@, v),
            clean_type(old(self).subst.entries@, other),
        ensures
            final(self).inv(),
            unbound_var_step(*old(self), *final(self), span, mo, v, inst, other, swapped),
            (mo == Mutability::Mutable && vars_of(other).contains(v)) ==> stack_substituted(
                old(stack)@,
                final(stack)@,
                v,
                Type::Invalid,
            ),
            (mo == Mutability::Mutable && !vars_of(other).contains(v)) ==> stack_substituted(
                old(stack)@,
                final(stack)@,
                v,
                other,
            ),
            mo == Mutability::Rigid ==> final(stack)@ == old(stack)@,
    {
        match mo {
            Mutability::Mutable => {
                if occurs(&v, &other) {
                    let ghost msg = Message { span, kind: MessageKind::RecursiveInference(v, other) };
                    self.messages.push(
                        Message { span, kind: MessageKind::RecursiveInference(v, other) },
                    );
                    proof {
                        assert(self.messages@ =~= old(self).messages@ + seq![msg]);
                    }
                    let poison = Type::Invalid;
                    subst_stack(stack, v, &poison);
                    proof {
                        assert(vars_of(poison) =~= Set::<UniVar>::empty());
                        lemma_novars_clean(self.subst.entries@, poison);
                    }
                    self.subst.commit(inst, v, poison);
                } else {
                    subst_stack(stack, v, &other);
                    self.causes.push((v, Because::Unified(span)));
                    self.subst.commit(inst, v, other);
                }
            }
            Mutability::Rigid => {
                let wrapped = if inst.is_empty() {
                    Type::Var(mo, v)
                } else {
                    Type::Instantiated(Box::new(Type::Var(mo, v)), inst)
                };
                let ghost gwrapped = wrapped;
                proof {
                    assert(wf_type(Type::Var(mo, v)));
                    assert(wf_bindings(inst));
                    if inst is Nil {
                        assert(gwrapped == Type::Var(mo, v));
                    } else {
                        assert(gwrapped == Type::Instantiated(Box::new(Type::Var(mo, v)), inst));
                        assert(wf_type(gwrapped));
                    }
                    assert(wf_type(gwrapped));
                }
                if swapped {
                    self.worklist.push((span, other, wrapped));
                } else {
                    self.worklist.push((span, wrapped, other));
                }
                proof {
                    assert forall|i: int| 0 <= i < self.worklist@.len() implies wf_type(
                        (#[trigger] self.worklist@[i]).1,
                    ) && wf_type(self.worklist@[i].2) by {
                        if i < self.worklist@.len() - 1 {
                            assert(self.worklist@[i] == old(self).worklist@[i]);
                        } else {
                            assert(self.worklist@[i] == self.worklist@.last());
                        }
                    }
                }
            }
        }
    }

    /// A placeholder on either side of a whole obligation, met under the
    /// empty context: the identical-placeholder pair is a no-op, anything
    /// else is one `var_step`.
    fn unify_top_var(&mut self, stack: &mut Vec<Pair>, span: Span, e0: Type, a0: Type)
        requires
            old(self).inv(),
            wf_type(e0),
            wf_type(a0),
            clean_type(old(self).subst.entries@, e0),
            clean_type(old(self).subst.entries@, a0),
            e0 is Var || a0 is Var,
        ensures
            final(self).inv(),
            old(self).subst.entries@.is_prefix_of(final(self).subst.entries@),
            old(self).messages@.is_prefix_of(final(self).messages@),
            old(self).causes@.is_prefix_of(final(self).causes@),
            old(self).worklist@.is_prefix_of(final(self).worklist@),
            match (e0, a0) {
                (Type::Var(mo, v), a1) => if a1 == Type::Var(Mutability::Rigid, v) || a1
                    == Type::Var(Mutability::Mutable, v) {
                    &&& final(self).subst.entries@ == old(self).subst.entries@
                    &&& final(self).messages@ == old(self).messages@
                    &&& final(self).causes@ == old(self).causes@
                    &&& final(self).worklist@ == old(self).worklist@
                } else {
                    unbound_var_step(*old(self), *final(self), span, mo, v, Bindings::Nil, a1, false)
                },
                (e1, Type::Var(m2, w)) => unbound_var_step(
                    *old(self),
                    *final(self),
                    span,
                    m2,
                    w,
                    Bindings::Nil,
                    e1,
                    true,
                ),
                _ => true,
            },
    {
        match (e0, a0) {
            (Type::Var(mo, v), a1) => {
                let mut same: bool = false;
                if let Type::Var(_, w) = &a1 {
                    if *w == v {
                        same = true;
                    }
                }
                if same {
                    proof {
                        lemma_seq_prefix_self(self.subst.entries@);
                        lemma_seq_prefix_self(self.messages@);
                        lemma_seq_prefix_self(self.causes@);
                        lemma_seq_prefix_self(self.worklist@);
                    }
                } else {
                    proof {
                        assert(vars_of(Type::Var(mo, v)).contains(v));
                    }
                    let ghost self_pre = *self;
                    self.var_step(stack, span, Bindings::Nil, mo, v, a1, false);
                    proof {
                        lemma_step_prefixes(self_pre, *self);
                    }
                }
            }
            (e1, Type::Var(m2, w)) => {
                proof {
                    assert(vars_of(Type::Var(m2, w)).contains(w));
                }
                let ghost self_pre = *self;
                self.var_step(stack, span, Bindings::Nil, m2, w, e1, true);
                proof {
                    lemma_step_prefixes(self_pre, *self);
                }
            }
            (_, _) => {}
        }
    }

    /// Compare two types in the empty instantiation context, recording at
    /// most one diagnostic per structural clash and never failing. Bound
    /// placeholders are read through the store; an unbound mutable
    /// placeholder is committed, or poisoned to `Invalid` on an
    /// occurs-check violation; an unbound rigid placeholder is deferred to
    /// the worklist.
    #[verifier::rlimit(100)]
    pub fn unify(&mut self, span: Span, expected: Type, actual: Type)
        requires
            old(self).inv(),
            wf_type(expected),
            wf_type(actual),
        ensures
            final(self).inv(),
            unify_effect(*old(self), *final(self), span, expected, actual),
    {
        let ghost self0 = *self;
        proof {
            lemma_vars_finite(expected);
            lemma_vars_finite(actual);
            if closed_type(expected) {
                lemma_closed_novars(expected);
                lemma_novars_clean(self.subst.entries@, expected);
            }
            if closed_type(actual) {
                lemma_closed_novars(actual);
                lemma_novars_clean(self.subst.entries@, actual);
            }
            if expected is Var {
                assert(vars_of(expected) =~= Set::empty().insert(expected->Var_1));
            }
            assert forall|i: int|
                0 <= i < self.subst.entries@.len() && closed_type(
                    (#[trigger] self.subst.entries@[i]).2,
                ) implies clean_type(self.subst.entries@, self.subst.entries@[i].2) by {
                lemma_closed_novars(self.subst.entries@[i].2);
                lemma_novars_clean(self.subst.entries@, self.subst.entries@[i].2);
            }
        }
        let e0 = self.subst.resolve(&expected, Ghost(0int));
        let a0 = self.subst.resolve(&actual, Ghost(0int));
        proof {
            lemma_vars_finite(e0);
            lemma_vars_finite(a0);
            // when the expected side is a bound placeholder with a closed,
            // context-free entry, resolution hands back exactly that entry
            if expected is Var {
                let i = choose|i: int|
                    0 <= i < self.subst.entries@.len() && (#[trigger] self.subst.entries@[i]).0
                        == expected->Var_1;
                if 0 <= i < self.subst.entries@.len() && self.subst.entries@[i].1 is Nil
                    && closed_type(self.subst.entries@[i].2) {
                    lemma_retag_closed(expected->Var_0, self.subst.entries@[i].2);
                }
            }
        }
        let ghost closed_case = closed_type(e0) && closed_type(a0);
        let ghost target = closed_msgs(span, e0, a0);
        let mut stack: Vec<Pair> = Vec::new();
        // a placeholder on either side of the whole obligation is handled
        // at once: the top-level context is empty, so nothing else applies
        let mut top_var: bool = false;
        if let Type::Var(_, _) = &e0 {
            top_var = true;
        }
        if let Type::Var(_, _) = &a0 {
            top_var = true;
        }
        if top_var {
            self.unify_top_var(&mut stack, span, e0, a0);
            return;
        }
        let ghost gp = Pair { inst: Bindings::Nil, expected: e0, actual: a0 };
        stack.push(Pair { inst: Bindings::Nil, expected: e0, actual: a0 });
        let ghost mut varset = vars_of(e0).union(vars_of(a0));
        proof {
            assert(stack@ == Seq::<Pair>::empty().push(gp));
            lemma_stack_push(Seq::<Pair>::empty(), gp, span);
            assert(stack_vars(Seq::<Pair>::empty()) == Set::<UniVar>::empty());
            assert(stack_msgs(Seq::<Pair>::empty(), span) == Seq::<Message>::empty());
            assert(stack_vars(stack@) =~= varset);
            assert(stack_msgs(stack@, span) =~= target);
        }
        while stack.len() != 0
            invariant
                self.subst.inv(),
                self0.subst.entries@.is_prefix_of(self.subst.entries@),
                self0.messages@.is_prefix_of(self.messages@),
                self0.causes@.is_prefix_of(self.causes@),
                self0.worklist@.is_prefix_of(self.worklist@),
                forall|i: int|
                    0 <= i < self.worklist@.len() ==> wf_type((#[trigger] self.worklist@[i]).1)
                        && wf_type(self.worklist@[i].2),
                stack_wf(stack@, self.subst.entries@),
                varset.finite(),
                stack_vars(stack@).subset_of(varset),
                closed_case ==> {
                    &&& self.subst.entries@ == self0.subst.entries@
                    &&& self.worklist@ == self0.worklist@
                    &&& self.causes@ == self0.causes@
                    &&& stack_closed(stack@)
                    &&& self.messages@ + stack_msgs(stack@, span) == self0.messages@ + target
                },
            decreases varset.len(), stack_names(stack@), stack_size(stack@),
        {
            let ghost pre = stack@;
            let ghost varset_pre = varset;
            let p = stack.pop().unwrap();
            proof {
                assert(pre.drop_last() =~= stack@);
                assert(pre.last() == p);
                assert(stack_vars(stack@).subset_of(stack_vars(pre)));
                assert(vars_of(p.expected).subset_of(stack_vars(pre)));
                assert(vars_of(p.actual).subset_of(stack_vars(pre)));
                if closed_case {
                    assert(closed_type(pre[pre.len() - 1].expected));
                }
            }
            let Pair { inst, expected: pe, actual: pa } = p;
            let ghost pe0 = pe;
            let ghost pa0 = pa;
            let ghost inst0 = inst;
            match (pe, pa) {
                (Type::Range(l1, h1), Type::Range(l2, h2)) => {
                    if !(l1 <= l2 && h1 >= h2) {
                        self.messages.push(
                            Message { span, kind: MessageKind::NarrowRange((l1, h1), (l2, h2)) },
                        );
                    }
                }
                (Type::Number, Type::Range(_, _)) => {}
                (Type::Number, Type::Number) => {}
                (Type::Name(n), ua) => {
                    let hit = match inst.get(n) {
                        Some(g) => Some(ground_to_type(g)),
                        None => None,
                    };
                    match hit {
                        Some(t2) => {
                            proof {
                                lemma_bindings_get_wf(inst0, n);
                                lemma_ground_embed(spec_bindings_get(inst0, n)->Some_0);
                                lemma_novars_clean(self.subst.entries@, t2);
                            }
                            let pr = Pair { inst, expected: t2, actual: ua };
                            proof {
                                lemma_stack_push(stack@, pr, span);
                            }
                            stack.push(pr);
                        }
                        None => {
                            match ua {
                                Type::Name(m) => {
                                    let hit2 = match inst.get(m) {
                                        Some(g) => Some(ground_to_type(g)),
                                        None => None,
                                    };
                                    match hit2 {
                                        Some(u2) => {
                                            proof {
                                                lemma_bindings_get_wf(inst0, m);
                                                lemma_ground_embed(
                                                    spec_bindings_get(inst0, m)->Some_0,
                                                );
                                                lemma_novars_clean(self.subst.entries@, u2);
                                            }
                                            let pr = Pair {
                                                inst,
                                                expected: Type::Name(n),
                                                actual: u2,
                                            };
                                            proof {
                                                lemma_stack_push(stack@, pr, span);
                                            }
                                            stack.push(pr);
                                        }
                                        None => {
                                            if n.0 != m.0 {
                                                self.messages.push(
                                                    Message {
                                                        span,
                                                        kind: MessageKind::Incompatible(
                                                            None,
                                                            None,
                                                        ),
                                                    },
                                                );
                                            }
                                        }
                                    }
                                }
                                Type::Var(mo2, w) => {
                                    proof {
                                        assert(vars_of(pa0).contains(w));
                                        assert(vars_of(Type::Name(n)) =~= Set::<
                                            UniVar,
                                        >::empty());
                                        lemma_novars_clean(self.subst.entries@, Type::Name(n));
                                    }
                                    let ghost self_pre = *self;
                                    self.var_step(
                                        &mut stack,
                                        span,
                                        inst,
                                        mo2,
                                        w,
                                        Type::Name(n),
                                        true,
                                    );
                                    proof {
                                        self.after_var_step(
                                            Ghost(self_pre),
                                            Ghost(pre),
                                            Ghost(stack@),
                                            Ghost(varset_pre),
                                            Ghost(span),
                                            Ghost(inst0),
                                            Ghost(mo2),
                                            Ghost(w),
                                            Ghost(Type::Name(n)),
                                        );
                                        if mo2 == Mutability::Mutable {
                                            varset = varset.remove(w);
                                        }
                                    }
                                }
                                Type::Instantiated(u2, b2) => {
                                    let merged = Bindings::merge(&inst, &b2);
                                    let pr = Pair {
                                        inst: merged,
                                        expected: Type::Name(n),
                                        actual: *u2,
                                    };
                                    proof {
                                        assert(vars_of(pr.expected) =~= Set::<UniVar>::empty());
                                        lemma_novars_clean(self.subst.entries@, pr.expected);
                                        assert(vars_of(pr.actual).subset_of(vars_of(pa0)));
                                        lemma_stack_push(stack@, pr, span);
                                    }
                                    stack.push(pr);
                                }
                                Type::Invalid => {}
                                other => {
                                    self.messages.push(
                                        Message {
                                            span,
                                            kind: MessageKind::Incompatible(
                                                Some(Type::Name(n)),
                                                Some(other),
                                            ),
                                        },
                                    );
                                }
                            }
                        }
                    }
                }
                (ee, Type::Name(m)) => {
                    let hit = match inst.get(m) {
                        Some(g) => Some(ground_to_type(g)),
                        None => None,
                    };
                    match hit {
                        Some(u2) => {
                            proof {
                                lemma_bindings_get_wf(inst0, m);
                                lemma_ground_embed(spec_bindings_get(inst0, m)->Some_0);
                                lemma_novars_clean(self.subst.entries@, u2);
                            }
                            let pr = Pair { inst, expected: ee, actual: u2 };
                            proof {
                                lemma_stack_push(stack@, pr, span);
                            }
                            stack.push(pr);
                        }
                        None => {
                            match ee {
                                Type::Var(mo1, v) => {
                                    proof {
                                        assert(vars_of(pe0).contains(v));
                                        assert(vars_of(Type::Name(m)) =~= Set::<
                                            UniVar,
                                        >::empty());
                                        lemma_novars_clean(self.subst.entries@, Type::Name(m));
                                    }
                                    let ghost self_pre = *self;
                                    self.var_step(
                                        &mut stack,
                                        span,
                                        inst,
                                        mo1,
                                        v,
                                        Type::Name(m),
                                        false,
                                    );
                                    proof {
                                        self.after_var_step(
                                            Ghost(self_pre),
                                            Ghost(pre),
                                            Ghost(stack@),
                                            Ghost(varset_pre),
                                            Ghost(span),
                                            Ghost(inst0),
                                            Ghost(mo1),
                                            Ghost(v),
                                            Ghost(Type::Name(m)),
                                        );
                                        if mo1 == Mutability::Mutable {
                                            varset = varset.remove(v);
                                        }
                                    }
                                }
                                Type::Instantiated(e2, b2) => {
                                    let merged = Bindings::merge(&inst, &b2);
                                    let pr = Pair {
                                        inst: merged,
                                        expected: *e2,
                                        actual: Type::Name(m),
                                    };
                                    proof {
                                        assert(vars_of(pr.actual) =~= Set::<UniVar>::empty());
                                        lemma_novars_clean(self.subst.entries@, pr.actual);
                                        assert(vars_of(pr.expected).subset_of(vars_of(pe0)));
                                        lemma_stack_push(stack@, pr, span);
                                    }
                                    stack.push(pr);
                                }
                                Type::Invalid => {}
                                other => {
                                    self.messages.push(
                                        Message {
                                            span,
                                            kind: MessageKind::Incompatible(
                                                Some(other),
                                                Some(Type::Name(m)),
                                            ),
                                        },
                                    );
                                }
                            }
                        }
                    }
                }
                (Type::Fun(t1, u1), Type::Fun(t2, u2)) => {
                    let pu = Pair { inst: inst.clone(), expected: *u1, actual: *u2 };
                    proof {
                        assert(vars_of(pu.expected).subset_of(vars_of(pe0)));
                        assert(vars_of(pu.actual).subset_of(vars_of(pa0)));
                        assert(clean_type(self.subst.entries@, pu.expected));
                        assert(clean_type(self.subst.entries@, pu.actual));
                        lemma_stack_push(stack@, pu, span);
                    }
                    stack.push(pu);
                    let pt = Pair { inst, expected: *t1, actual: *t2 };
                    proof {
                        assert(vars_of(pt.expected).subset_of(vars_of(pe0)));
                        assert(vars_of(pt.actual).subset_of(vars_of(pa0)));
                        assert(clean_type(self.subst.entries@, pt.expected));
                        assert(clean_type(self.subst.entries@, pt.actual));
                        lemma_stack_push(stack@, pt, span);
                        if closed_case {
                            assert(closed_msgs(span, pe0, pa0) + stack_msgs(pre.drop_last(), span)
                                =~= closed_msgs(span, pt.expected, pt.actual) + (closed_msgs(
                                span,
                                pu.expected,
                                pu.actual,
                            ) + stack_msgs(pre.drop_last(), span)));
                        }
                    }
                    stack.push(pt);
                }
                (Type::Product(t1, u1), Type::Product(t2, u2)) => {
                    let pu = Pair { inst: inst.clone(), expected: *u1, actual: *u2 };
                    proof {
                        assert(vars_of(pu.expected).subset_of(vars_of(pe0)));
                        assert(vars_of(pu.actual).subset_of(vars_of(pa0)));
                        assert(clean_type(self.subst.entries@, pu.expected));
                        assert(clean_type(self.subst.entries@, pu.actual));
                        lemma_stack_push(stack@, pu, span);
                    }
                    stack.push(pu);
                    let pt = Pair { inst, expected: *t1, actual: *t2 };
                    proof {
                        assert(vars_of(pt.expected).subset_of(vars_of(pe0)));
                        assert(vars_of(pt.actual).subset_of(vars_of(pa0)));
                        assert(clean_type(self.subst.entries@, pt.expected));
                        assert(clean_type(self.subst.entries@, pt.actual));
                        lemma_stack_push(stack@, pt, span);
                        if closed_case {
                            assert(closed_msgs(span, pe0, pa0) + stack_msgs(pre.drop_last(), span)
                                =~= closed_msgs(span, pt.expected, pt.actual) + (closed_msgs(
                                span,
                                pu.expected,
                                pu.actual,
                            ) + stack_msgs(pre.drop_last(), span)));
                        }
                    }
                    stack.push(pt);
                }
                (Type::Var(mo1, v), ua) => {
                    let mut same: bool = false;
                    if let Type::Var(_, w) = &ua {
                        if *w == v {
                            same = true;
                        }
                    }
                    if same {
                    } else {
                        proof {
                            assert(vars_of(pe0).contains(v));
                            assert(vars_of(ua).subset_of(vars_of(pa0)));
                        }
                        let ghost self_pre = *self;
                        self.var_step(&mut stack, span, inst, mo1, v, ua, false);
                        proof {
                            self.after_var_step(
                                Ghost(self_pre),
                                Ghost(pre),
                                Ghost(stack@),
                                Ghost(varset_pre),
                                Ghost(span),
                                Ghost(inst0),
                                Ghost(mo1),
                                Ghost(v),
                                Ghost(pa0),
                            );
                            if mo1 == Mutability::Mutable {
                                varset = varset.remove(v);
                            }
                        }
                    }
                }
                (ee, Type::Var(mo2, w)) => {
                    proof {
                        assert(vars_of(pa0).contains(w));
                        assert(vars_of(ee).subset_of(vars_of(pe0)));
                    }
                    let ghost self_pre = *self;
                    self.var_step(&mut stack, span, inst, mo2, w, ee, true);
                    proof {
                        self.after_var_step(
                            Ghost(self_pre),
                            Ghost(pre),
                            Ghost(stack@),
                            Ghost(varset_pre),
                            Ghost(span),
                            Ghost(inst0),
                            Ghost(mo2),
                            Ghost(w),
                            Ghost(pe0),
                        );
                        if mo2 == Mutability::Mutable {
                            varset = varset.remove(w);
                        }
                    }
                }
                (Type::Instantiated(e2, b2), ua) => {
                    let merged = Bindings::merge(&inst, &b2);
                    let pr = Pair { inst: merged, expected: *e2, actual: ua };
                    proof {
                        assert(vars_of(pr.expected).subset_of(vars_of(pe0)));
                        lemma_stack_push(stack@, pr, span);
                    }
                    stack.push(pr);
                }
                (ee, Type::Instantiated(u2, b2)) => {
                    let merged = Bindings::merge(&inst, &b2);
                    let pr = Pair { inst: merged, expected: ee, actual: *u2 };
                    proof {
                        assert(vars_of(pr.actual).subset_of(vars_of(pa0)));
                        lemma_stack_push(stack@, pr, span);
                    }
                    stack.push(pr);
                }
                (Type::Invalid, _) => {}
                (_, Type::Invalid) => {}
                (ee, ua) => {
                    self.messages.push(
                        Message { span, kind: MessageKind::Incompatible(Some(ee), Some(ua)) },
                    );
                }
            }
        }
        proof {
            if closed_case {
                assert(stack_msgs(stack@, span) =~= Seq::<Message>::empty());
                assert(self.messages@ =~= self0.messages@ + target);
            }
        }
    }

    /// Re-establish the loop's bookkeeping after a placeholder step: the
    /// remaining work is still well-formed and clean for the grown store,
    /// and mentions no placeholder outside the shrunk tracking set.
    proof fn after_var_step(
        &self,
        pre_self: Ghost<Unifier>,
        pre_stack: Ghost<Seq<Pair>>,
        post_stack: Ghost<Seq<Pair>>,
        varset: Ghost<Set<UniVar>>,
        span: Ghost<Span>,
        inst: Ghost<Bindings>,
        mo: Ghost<Mutability>,
        v: Ghost<UniVar>,
        other: Ghost<Type>,
    )
        requires
            pre_stack@.len() > 0,
            stack_wf(pre_stack@, pre_self@.subst.entries@),
            wf_type(other@),
            wf_bindings(inst@),
            clean_type(pre_self@.subst.entries@, other@),
            stack_vars(pre_stack@).subset_of(varset@),
            vars_of(other@).subset_of(stack_vars(pre_stack@)),
            varset@.contains(v@),
            varset@.finite(),
            unbound_var_step(pre_self@, *self, span@, mo@, v@, inst@, other@, true)
                || unbound_var_step(pre_self@, *self, span@, mo@, v@, inst@, other@, false),
            mo@ == Mutability::Mutable ==> (if vars_of(other@).contains(v@) {
                stack_substituted(pre_stack@.drop_last(), post_stack@, v@, Type::Invalid)
            } else {
                stack_substituted(pre_stack@.drop_last(), post_stack@, v@, other@)
            }),
            mo@ == Mutability::Rigid ==> post_stack@ == pre_stack@.drop_last(),
        ensures
            stack_wf(post_stack@, self.subst.entries@),
            mo@ == Mutability::Mutable ==> {
                &&& stack_vars(post_stack@).subset_of(varset@.remove(v@))
                &&& varset@.remove(v@).len() < varset@.len()
            },
            mo@ == Mutability::Rigid ==> stack_vars(post_stack@).subset_of(varset@),
    {
        let s0 = pre_self@.subst.entries@;
        let rest = pre_stack@.drop_last();
        assert(forall|i: int| 0 <= i < rest.len() ==> #[trigger] rest[i] == pre_stack@[i]);
        if mo@ == Mutability::Rigid {
            assert(self.subst.entries@ == s0);
            assert forall|i: int| 0 <= i < post_stack@.len() implies vars_of(
                (#[trigger] post_stack@[i]).expected,
            ).union(vars_of(post_stack@[i].actual)).subset_of(varset@) by {
                lemma_stack_vars_elem(pre_stack@, i);
            }
            lemma_stack_vars_elemwise(post_stack@, varset@);
        } else {
            let r = if vars_of(other@).contains(v@) {
                Type::Invalid
            } else {
                other@
            };
            let entry = (v@, inst@, r);
            assert(self.subst.entries@ == s0.push(entry));
            assert(clean_type(s0, r)) by {
                if vars_of(other@).contains(v@) {
                    assert(vars_of(Type::Invalid) =~= Set::<UniVar>::empty());
                    lemma_novars_clean(s0, Type::Invalid);
                }
            }
            assert(!vars_of(r).contains(v@)) by {
                if vars_of(other@).contains(v@) {
                    assert(vars_of(Type::Invalid) =~= Set::<UniVar>::empty());
                }
            }
            assert forall|i: int| 0 <= i < post_stack@.len() implies {
                &&& wf_type((#[trigger] post_stack@[i]).expected)
                &&& wf_type(post_stack@[i].actual)
                &&& wf_bindings(post_stack@[i].inst)
                &&& clean_type(self.subst.entries@, post_stack@[i].expected)
                &&& clean_type(self.subst.entries@, post_stack@[i].actual)
            } by {
                lemma_subst_var_props(v@, r, rest[i].expected);
                lemma_subst_var_props(v@, r, rest[i].actual);
                lemma_clean_subst(s0, entry, r, rest[i].expected);
                lemma_clean_subst(s0, entry, r, rest[i].actual);
            }
            assert forall|i: int| 0 <= i < post_stack@.len() implies vars_of(
                (#[trigger] post_stack@[i]).expected,
            ).union(vars_of(post_stack@[i].actual)).subset_of(varset@.remove(v@)) by {
                lemma_subst_var_props(v@, r, rest[i].expected);
                lemma_subst_var_props(v@, r, rest[i].actual);
                lemma_stack_vars_elem(pre_stack@, i);
            }
            lemma_stack_vars_elemwise(post_stack@, varset@.remove(v@));
            assert(varset@.remove(v@).len() < varset@.len()) by {
                assert(varset@.remove(v@).len() == varset@.len() - 1);
            }
        }
    }
}

} // verus!
