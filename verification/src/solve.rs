//! The constraint solver: a worklist driver that reduces each obligation to
//! unifier calls or defers it, takes the whole queue as one batch per round,
//! and stops — reporting everything left as ambiguous — the moment a batch
//! fails to shrink the queue. After the main loop, still-ambiguous numeric
//! obligations are defaulted to `Number`.

use vstd::prelude::*;

use crate::subst::{clean_type, spec_contains_var};
use crate::types::{
    closed_type, vars_of, wf_bindings, wf_type, Bindings, Message, MessageKind, Mutability, NameId,
    Span, Type, UniVar,
};
use crate::unify::closed_msgs;
use crate::unify::{
    lemma_novars_clean, lemma_seq_prefix_concat, lemma_seq_prefix_push, lemma_seq_prefix_self,
    lemma_seq_prefix_trans, unify_effect, Unifier,
};

verus! {

/// A fresh-variable counter seed, one per span.
pub type Counts = Vec<(Span, u64)>;

/// The declared shape of a nominal type: its fields and their types. This
/// is the solver's well-formedness oracle for `Name` references.
pub type Shapes = Vec<(NameId, Vec<(NameId, Type)>)>;

/// Identity of an assignability site, minted by the caller; the solver
/// carries it through so downstream lowering can find the coercion again.
#[derive(Clone, Copy, Debug, PartialEq, Eq, Hash, Structural)]
pub struct CoercionId(pub u64);

/// A polymorphic item's skeleton: its rigid parameter names and its body.
#[derive(Debug)]
pub struct Template {
    pub params: Vec<NameId>,
    pub body: Type,
}

/// A typing obligation, as produced while walking the elaborated tree.
#[derive(Debug)]
pub enum Constraint {
    /// Assignment compatibility: equality plus the unifier's one-directional
    /// range containment, tagged with the coercion site.
    Assignable { at: Span, id: CoercionId, into: Type, from: Type },
    /// Plain unification of the two types.
    Equal(Span, Type, Type),
    /// `of` must expose `field`, and `target` is that field's type.
    Field { at: Span, target: Type, of: Type, field: NameId },
    /// The type must be some instantiation of the polymorphic template.
    Instantiated(Span, Type, Template),
    /// The type must be the designated unit type.
    UnitLike(Span, Type),
    /// The type must support numeric operations.
    Numeric(Span, Type),
    /// The type must be the designated text type.
    Textual(Span, Type),
    /// A weaker, second-chance numeric obligation, evaluated only after the
    /// main loop.
    TypeNumeric(Span, Type),
}

/// What one numeric check decided.
pub enum NumericResult {
    Solved,
    Unsolved(Span, Type),
    Failed(Message),
}

/// The source position an obligation is reported at.
pub open spec fn at_of(c: Constraint) -> Span {
    match c {
        Constraint::Assignable { at, .. } => at,
        Constraint::Equal(at, _, _) => at,
        Constraint::Field { at, .. } => at,
        Constraint::Instantiated(at, _, _) => at,
        Constraint::UnitLike(at, _) => at,
        Constraint::Numeric(at, _) => at,
        Constraint::Textual(at, _) => at,
        Constraint::TypeNumeric(at, _) => at,
    }
}

pub open spec fn wf_constraint(c: Constraint) -> bool {
    match c {
        Constraint::Assignable { at, id, into, from } => wf_type(into) && wf_type(from),
        Constraint::Equal(_, t, u) => wf_type(t) && wf_type(u),
        Constraint::Field { at, target, of, field } => wf_type(target) && wf_type(of),
        Constraint::Instantiated(_, ty, tpl) => wf_type(ty) && wf_type(tpl.body),
        Constraint::UnitLike(_, ty) => wf_type(ty),
        Constraint::Numeric(_, ty) => wf_type(ty),
        Constraint::Textual(_, ty) => wf_type(ty),
        Constraint::TypeNumeric(_, ty) => wf_type(ty),
    }
}

/// Whether some shape is declared for `n`.
pub open spec fn shape_declared(shapes: Seq<(NameId, Vec<(NameId, Type)>)>, n: NameId) -> bool {
    exists|i: int| 0 <= i < shapes.len() && (#[trigger] shapes[i]).0 == n
}

/// A field obligation on a nominal type that no shape is declared for: it
/// can never resolve, and is deferred unchanged every round.
pub open spec fn blocked_field(c: Constraint, shapes: Seq<(NameId, Vec<(NameId, Type)>)>) -> bool {
    match c {
        Constraint::Field { at, target, of, field } => match of {
            Type::Name(n) => !shape_declared(shapes, n),
            _ => false,
        },
        _ => false,
    }
}

/// One ambiguity report per surviving obligation, in order.
pub open spec fn ambiguous_msgs(s: Seq<Constraint>) -> Seq<Message> {
    Seq::new(s.len(), |i: int| Message { span: at_of(s[i]), kind: MessageKind::Ambiguous })
}

/// A queue of equality obligations between closed types only.
pub open spec fn all_closed_equalities(s: Seq<Constraint>) -> bool {
    forall|i: int|
        0 <= i < s.len() ==> match #[trigger] s[i] {
            Constraint::Equal(at, t, u) => closed_type(t) && closed_type(u),
            _ => false,
        }
}

/// The diagnostics such a queue produces: the structural diagnostics of
/// each equality, in queue order.
pub open spec fn equalities_msgs(s: Seq<Constraint>) -> Seq<Message>
    decreases s.len(),
{
    if s.len() == 0 {
        Seq::empty()
    } else {
        (match s[0] {
            Constraint::Equal(at, t, u) => closed_msgs(at, t, u),
            _ => Seq::empty(),
        }) + equalities_msgs(s.skip(1))
    }
}

proof fn lemma_eqmsgs_snoc(s: Seq<Constraint>, k: int)
    requires
        0 <= k < s.len(),
    ensures
        equalities_msgs(s.take(k + 1)) == equalities_msgs(s.take(k)) + (match s[k] {
            Constraint::Equal(at, t, u) => closed_msgs(at, t, u),
            _ => Seq::empty(),
        }),
    decreases k,
{
    if k == 0 {
        assert(s.take(1)[0] == s[0]);
        assert(s.take(1).skip(1) =~= Seq::<Constraint>::empty());
        assert(s.take(0) =~= Seq::<Constraint>::empty());
        assert(s.take(1).len() == 1);
        assert(equalities_msgs(Seq::<Constraint>::empty()) == Seq::<Message>::empty());
        assert(equalities_msgs(s.take(1).skip(1)) == Seq::<Message>::empty());
        assert(equalities_msgs(s.take(1)) =~= (match s[0] {
            Constraint::Equal(at, t, u) => closed_msgs(at, t, u),
            _ => Seq::empty(),
        }) + Seq::<Message>::empty());
        assert(equalities_msgs(s.take(1)) =~= equalities_msgs(s.take(0)) + (match s[0] {
            Constraint::Equal(at, t, u) => closed_msgs(at, t, u),
            _ => Seq::empty(),
        }));
    } else {
        assert(s.take(k + 1)[0] == s[0]);
        assert(s.take(k)[0] == s[0]);
        assert(s.take(k + 1).skip(1) =~= s.skip(1).take(k));
        assert(s.take(k).skip(1) =~= s.skip(1).take(k - 1));
        assert(s.skip(1)[k - 1] == s[k]);
        lemma_eqmsgs_snoc(s.skip(1), k - 1);
        let head = match s[0] {
            Constraint::Equal(at, t, u) => closed_msgs(at, t, u),
            _ => Seq::<Message>::empty(),
        };
        let last = match s[k] {
            Constraint::Equal(at, t, u) => closed_msgs(at, t, u),
            _ => Seq::<Message>::empty(),
        };
        assert(equalities_msgs(s.take(k + 1)) == head + (equalities_msgs(s.skip(1).take(k - 1))
            + last));
        assert(head + (equalities_msgs(s.skip(1).take(k - 1)) + last) =~= (head
            + equalities_msgs(s.skip(1).take(k - 1))) + last);
    }
}

/// The state `solve` leaves a queue of equalities between closed types in:
/// every obligation's structural diagnostics, in order, and nothing
/// committed, deferred, or recorded.
pub open spec fn solved_closed_equalities(pre: Solver, post: Solver) -> bool {
    (pre.type_numeric@.len() == 0 && all_closed_equalities(pre.constraints@)) ==> {
        &&& post.unifier.messages@ == pre.unifier.messages@ + equalities_msgs(pre.constraints@)
        &&& post.unifier.subst.entries@ == pre.unifier.subst.entries@
        &&& post.unifier.causes@ == pre.unifier.causes@
        &&& post.unifier.worklist@ == pre.unifier.worklist@
    }
}

/// The final artifact: the diagnostics and the substitution, to be applied
/// by lowering to erase every placeholder.
#[derive(Debug)]
pub struct Solution {
    pub messages: Vec<Message>,
    pub substitution: crate::subst::Subst,
}

/// Replace free occurrences of the mapped rigid parameter names, leaving
/// names shadowed by an inner instantiation context alone.
fn subst_rigid_names(map: &Vec<(NameId, Type)>, t: &Type) -> (res: Type)
    requires
        wf_type(*t),
        forall|i: int| 0 <= i < map@.len() ==> wf_type((#[trigger] map@[i]).1),
    ensures
        wf_type(res),
        map@.len() == 0 ==> res == *t,
    decreases crate::types::size_of(*t),
{
    match t {
        Type::Name(n) => {
            let mut i: usize = 0;
            while i < map.len()
                invariant
                    forall|j: int| 0 <= j < map@.len() ==> wf_type((#[trigger] map@[j]).1),
                decreases map@.len() - i,
            {
                if map[i].0.0 == n.0 {
                    return map[i].1.clone();
                }
                i = i + 1;
            }
            Type::Name(*n)
        }
        Type::Fun(a, b) => Type::Fun(
            Box::new(subst_rigid_names(map, a)),
            Box::new(subst_rigid_names(map, b)),
        ),
        Type::Product(a, b) => Type::Product(
            Box::new(subst_rigid_names(map, a)),
            Box::new(subst_rigid_names(map, b)),
        ),
        Type::Instantiated(a, b) => {
            let mut filtered: Vec<(NameId, Type)> = Vec::new();
            let mut i: usize = 0;
            while i < map.len()
                invariant
                    i <= map@.len(),
                    filtered@.len() <= i,
                    forall|j: int| 0 <= j < map@.len() ==> wf_type((#[trigger] map@[j]).1),
                    forall|j: int| 0 <= j < filtered@.len() ==> wf_type((#[trigger] filtered@[j]).1),
                decreases map@.len() - i,
            {
                let (n, ty) = &map[i];
                if !b.contains(*n) {
                    filtered.push((*n, ty.clone()));
                }
                i = i + 1;
            }
            Type::Instantiated(Box::new(subst_rigid_names(&filtered, a)), b.clone())
        }
        Type::Invalid => Type::Invalid,
        Type::Number => Type::Number,
        Type::Range(lo, hi) => Type::Range(*lo, *hi),
        Type::Var(m, v) => Type::Var(*m, *v),
    }
}

/// The counter already minted for a span: the first entry for it, or zero.
pub open spec fn spec_count_of(s: Seq<(Span, u64)>, sp: Span) -> u64
    decreases s.len(),
{
    if s.len() == 0 {
        0
    } else if s[0].0 == sp {
        s[0].1
    } else {
        spec_count_of(s.skip(1), sp)
    }
}

proof fn lemma_count_at(s: Seq<(Span, u64)>, sp: Span, i: int)
    requires
        0 <= i < s.len(),
        s[i].0 == sp,
        forall|j: int| 0 <= j < i ==> (#[trigger] s[j]).0 != sp,
    ensures
        spec_count_of(s, sp) == s[i].1,
    decreases i,
{
    if i > 0 {
        assert(s.skip(1)[i - 1] == s[i]);
        assert(forall|j: int| 0 <= j < i - 1 ==> (#[trigger] s.skip(1)[j]).0 != sp);
        lemma_count_at(s.skip(1), sp, i - 1);
    }
}

proof fn lemma_count_absent(s: Seq<(Span, u64)>, sp: Span)
    requires
        forall|j: int| 0 <= j < s.len() ==> (#[trigger] s[j]).0 != sp,
    ensures
        spec_count_of(s, sp) == 0,
    decreases s.len(),
{
    if s.len() > 0 {
        assert(forall|j: int| 0 <= j < s.skip(1).len() ==> (#[trigger] s.skip(1)[j]).0 != sp);
        lemma_count_absent(s.skip(1), sp);
    }
}

/// Raising one span's counter leaves every other span's counter alone.
proof fn lemma_count_update_other(s: Seq<(Span, u64)>, i: int, x: u64, sp: Span)
    requires
        0 <= i < s.len(),
        s[i].0 != sp,
    ensures
        spec_count_of(s.update(i, (s[i].0, x)), sp) == spec_count_of(s, sp),
    decreases s.len(),
{
    let s2 = s.update(i, (s[i].0, x));
    if i == 0 {
        assert(s2[0].0 == s[0].0);
        assert(s2.skip(1) =~= s.skip(1));
    } else {
        assert(s2[0] == s[0]);
        if s[0].0 != sp {
            assert(s2.skip(1) =~= s.skip(1).update(i - 1, (s.skip(1)[i - 1].0, x)));
            lemma_count_update_other(s.skip(1), i - 1, x, sp);
        }
    }
}

proof fn lemma_count_push_other(s: Seq<(Span, u64)>, e: (Span, u64), sp: Span)
    requires
        e.0 != sp,
    ensures
        spec_count_of(s.push(e), sp) == spec_count_of(s, sp),
    decreases s.len(),
{
    assert(spec_count_of(Seq::<(Span, u64)>::empty(), sp) == 0);
    if s.len() == 0 {
        assert(s.push(e)[0] == e);
        assert(s.push(e).skip(1) =~= Seq::<(Span, u64)>::empty());
        assert(spec_count_of(s.push(e), sp) == spec_count_of(s.push(e).skip(1), sp));
    } else {
        assert(s.push(e)[0] == s[0]);
        if s[0].0 != sp {
            assert(s.push(e).skip(1) =~= s.skip(1).push(e));
            lemma_count_push_other(s.skip(1), e, sp);
            assert(spec_count_of(s.push(e), sp) == spec_count_of(s.skip(1).push(e), sp));
            assert(spec_count_of(s, sp) == spec_count_of(s.skip(1), sp));
        }
    }
}

/// The declared shape for `n`, if any: the first entry with that name.
pub open spec fn spec_find_shape(
    s: Seq<(NameId, Vec<(NameId, Type)>)>,
    n: NameId,
) -> Option<Seq<(NameId, Type)>>
    decreases s.len(),
{
    if s.len() == 0 {
        None
    } else if s[0].0 == n {
        Some(s[0].1@)
    } else {
        spec_find_shape(s.skip(1), n)
    }
}

/// The declared type of field `f` in a shape, if any: the first entry.
pub open spec fn spec_find_field(fs: Seq<(NameId, Type)>, f: NameId) -> Option<Type>
    decreases fs.len(),
{
    if fs.len() == 0 {
        None
    } else if fs[0].0 == f {
        Some(fs[0].1)
    } else {
        spec_find_field(fs.skip(1), f)
    }
}

proof fn lemma_find_shape_at(s: Seq<(NameId, Vec<(NameId, Type)>)>, n: NameId, i: int)
    requires
        0 <= i < s.len(),
        s[i].0 == n,
        forall|j: int| 0 <= j < i ==> (#[trigger] s[j]).0 != n,
    ensures
        spec_find_shape(s, n) == Some(s[i].1@),
    decreases i,
{
    if i > 0 {
        assert(s.skip(1)[i - 1] == s[i]);
        assert(forall|j: int| 0 <= j < i - 1 ==> (#[trigger] s.skip(1)[j]).0 != n);
        lemma_find_shape_at(s.skip(1), n, i - 1);
    }
}

proof fn lemma_find_shape_absent(s: Seq<(NameId, Vec<(NameId, Type)>)>, n: NameId)
    requires
        forall|j: int| 0 <= j < s.len() ==> (#[trigger] s[j]).0 != n,
    ensures
        spec_find_shape(s, n) is None,
    decreases s.len(),
{
    if s.len() > 0 {
        assert(forall|j: int| 0 <= j < s.skip(1).len() ==> (#[trigger] s.skip(1)[j]).0 != n);
        lemma_find_shape_absent(s.skip(1), n);
    }
}

proof fn lemma_find_field_at(fs: Seq<(NameId, Type)>, f: NameId, j: int)
    requires
        0 <= j < fs.len(),
        fs[j].0 == f,
        forall|k: int| 0 <= k < j ==> (#[trigger] fs[k]).0 != f,
    ensures
        spec_find_field(fs, f) == Some(fs[j].1),
    decreases j,
{
    if j > 0 {
        assert(fs.skip(1)[j - 1] == fs[j]);
        assert(forall|k: int| 0 <= k < j - 1 ==> (#[trigger] fs.skip(1)[k]).0 != f);
        lemma_find_field_at(fs.skip(1), f, j - 1);
    }
}

proof fn lemma_find_field_absent(fs: Seq<(NameId, Type)>, f: NameId)
    requires
        forall|k: int| 0 <= k < fs.len() ==> (#[trigger] fs[k]).0 != f,
    ensures
        spec_find_field(fs, f) is None,
    decreases fs.len(),
{
    if fs.len() > 0 {
        assert(forall|k: int| 0 <= k < fs.skip(1).len() ==> (#[trigger] fs.skip(1)[k]).0 != f);
        lemma_find_field_absent(fs.skip(1), f);
    }
}

/// The index of the entry for `f` in a declared shape, if any.
fn find_field(fields: &Vec<(NameId, Type)>, f: NameId) -> (res: Option<usize>)
    ensures
        match res {
            Some(j) => 0 <= j < fields@.len() && fields@[j as int].0 == f && spec_find_field(
                fields@,
                f,
            ) == Some(fields@[j as int].1),
            None => spec_find_field(fields@, f) is None,
        },
{
    let mut j: usize = 0;
    while j < fields.len()
        invariant
            j <= fields@.len(),
            forall|k: int| 0 <= k < j ==> (#[trigger] fields@[k]).0 != f,
        decreases fields@.len() - j,
    {
        if fields[j].0 == f {
            proof {
                lemma_find_field_at(fields@, f, j as int);
            }
            return Some(j);
        }
        j = j + 1;
    }
    proof {
        lemma_find_field_absent(fields@, f);
    }
    None
}

/// The solving session: the queue, the deferred second-chance numeric
/// obligations, the fresh-placeholder counters, the nominal-shape oracle,
/// the designated unit and text types, and the unifier it drives.
#[derive(Debug)]
pub struct Solver {
    pub counts: Counts,
    pub constraints: Vec<Constraint>,
    pub type_numeric: Vec<(Span, Type)>,
    pub unifier: Unifier,
    pub shapes: Shapes,
    pub unit_name: NameId,
    pub text_name: NameId,
}

/// The state `solve` leaves a lone, still-unconstrained second-chance
/// numeric placeholder in: committed to `Number`, with no diagnostic.
pub open spec fn defaulted_lone_numeric(pre: Solver, post: Solver) -> bool {
    (pre.constraints@.len() == 1 && pre.type_numeric@.len() == 0) ==> match pre.constraints@[0] {
        Constraint::TypeNumeric(at, ty) => match ty {
            Type::Var(mo, v) => (mo == Mutability::Mutable && !spec_contains_var(
                pre.unifier.subst.entries@,
                v,
            )) ==> {
                &&& post.unifier.subst.entries@ == pre.unifier.subst.entries@.push(
                    (v, Bindings::Nil, Type::Number),
                )
                &&& post.unifier.messages@ == pre.unifier.messages@
            },
            _ => true,
        },
        _ => true,
    }
}

/// The state `solve` leaves a lone second-chance numeric obligation of any
/// shape in: exactly one defaulting step on it.
pub open spec fn defaulted_second_chance(pre: Solver, post: Solver) -> bool {
    (pre.constraints@.len() == 1 && pre.type_numeric@.len() == 0) ==> match pre.constraints@[0] {
        Constraint::TypeNumeric(at, ty) => defaulting_effect(pre.unifier, post.unifier, at, ty),
        _ => true,
    }
}

/// The state `solve` leaves a queue of never-resolvable field obligations
/// in: one stalled batch, one ambiguity report per obligation, in order,
/// and nothing committed.
pub open spec fn stalled_on_blocked_fields(pre: Solver, post: Solver) -> bool {
    (pre.type_numeric@.len() == 0 && forall|i: int|
        0 <= i < pre.constraints@.len() ==> blocked_field(
            #[trigger] pre.constraints@[i],
            pre.shapes@,
        )) ==> {
        &&& post.unifier.messages@ == pre.unifier.messages@ + ambiguous_msgs(pre.constraints@)
        &&& post.unifier.subst.entries@ == pre.unifier.subst.entries@
        &&& post.constraints@.len() == 0
    }
}

/// The solver changed nothing at all for this obligation.
pub open spec fn solver_untouched(pre: Solver, post: Solver) -> bool {
    &&& post.unifier == pre.unifier
    &&& post.constraints == pre.constraints
    &&& post.type_numeric == pre.type_numeric
    &&& post.counts == pre.counts
}

/// The obligation was deferred: re-queued as `c2`, nothing else changed.
pub open spec fn solver_deferred(pre: Solver, post: Solver, c2: Constraint) -> bool {
    &&& post.constraints@ == pre.constraints@.push(c2)
    &&& post.unifier == pre.unifier
    &&& post.type_numeric == pre.type_numeric
    &&& post.counts == pre.counts
}

/// The obligation failed: exactly one diagnostic, nothing else changed.
pub open spec fn solver_one_message(pre: Solver, post: Solver, m: Message) -> bool {
    &&& post.unifier.messages@ == pre.unifier.messages@.push(m)
    &&& post.unifier.subst == pre.unifier.subst
    &&& post.unifier.causes == pre.unifier.causes
    &&& post.unifier.worklist == pre.unifier.worklist
    &&& post.constraints == pre.constraints
    &&& post.type_numeric == pre.type_numeric
    &&& post.counts == pre.counts
}

/// The obligation was reduced to one unifier call at `at` on the two given
/// sides, and the solver's own queues and counters were left alone.
pub open spec fn solver_unified(pre: Solver, post: Solver, at: Span, t: Type, u: Type) -> bool {
    &&& unify_effect(pre.unifier, post.unifier, at, t, u)
    &&& post.constraints == pre.constraints
    &&& post.type_numeric == pre.type_numeric
    &&& post.counts == pre.counts
}

/// What dispatching one obligation does, by kind: assignability and
/// equality are one unifier call; a field obligation resolves against the
/// declared shape, fails on a missing field or a non-record type, and is
/// deferred while its record type is an unresolved placeholder or its
/// nominal type has no declared shape yet; an instantiation unifies
/// against the template body under fresh placeholders for its parameters;
/// the unit and text obligations check against the designated names; a
/// numeric obligation resolves, defers, or fails; a second-chance numeric
/// obligation only joins its own list.
pub open spec fn constraint_effect(pre: Solver, post: Solver, c: Constraint) -> bool {
    match c {
        Constraint::Assignable { at, id, into, from } => solver_unified(pre, post, at, into, from),
        Constraint::Equal(at, t, u) => solver_unified(pre, post, at, t, u),
        Constraint::UnitLike(at, ty) => solver_unified(pre, post, at, ty, Type::Name(pre.unit_name)),
        Constraint::Instantiated(at, ty, tpl) => {
            &&& (exists|b2: Type|
                #[trigger] wf_type(b2) && unify_effect(pre.unifier, post.unifier, at, ty, b2))
            &&& (tpl.params@.len() == 0 ==> unify_effect(pre.unifier, post.unifier, at, ty, tpl.body))
            &&& post.constraints == pre.constraints
            &&& post.type_numeric == pre.type_numeric
        },
        Constraint::Field { at, target, of, field } => match of {
            Type::Name(n) => match spec_find_shape(pre.shapes@, n) {
                Option::Some(fields) => match spec_find_field(fields, field) {
                    Option::Some(ft) => solver_unified(pre, post, at, target, ft),
                    Option::None => solver_one_message(
                        pre,
                        post,
                        Message {
                            span: at,
                            kind: MessageKind::Incompatible(Some(Type::Name(n)), None),
                        },
                    ),
                },
                Option::None => solver_deferred(pre, post, c),
            },
            Type::Var(mo, v) => !spec_contains_var(pre.unifier.subst.entries@, v)
                ==> solver_deferred(pre, post, c),
            Type::Invalid => solver_untouched(pre, post),
            Type::Number => solver_one_message(
                pre,
                post,
                Message { span: at, kind: MessageKind::Incompatible(Some(of), None) },
            ),
            Type::Range(_, _) => solver_one_message(
                pre,
                post,
                Message { span: at, kind: MessageKind::Incompatible(Some(of), None) },
            ),
            Type::Fun(_, _) => clean_type(pre.unifier.subst.entries@, of) ==> solver_one_message(
                pre,
                post,
                Message { span: at, kind: MessageKind::Incompatible(Some(of), None) },
            ),
            Type::Product(_, _) => clean_type(pre.unifier.subst.entries@, of)
                ==> solver_one_message(
                pre,
                post,
                Message { span: at, kind: MessageKind::Incompatible(Some(of), None) },
            ),
            Type::Instantiated(_, _) => true,
        },
        Constraint::Numeric(at, ty) => clean_type(pre.unifier.subst.entries@, ty) ==> match ty {
            Type::Number => solver_untouched(pre, post),
            Type::Range(_, _) => solver_untouched(pre, post),
            Type::Invalid => solver_untouched(pre, post),
            Type::Var(_, _) => solver_deferred(pre, post, Constraint::Numeric(at, ty)),
            Type::Name(_) => solver_one_message(
                pre,
                post,
                Message { span: at, kind: MessageKind::Incompatible(Some(ty), Some(Type::Number)) },
            ),
            Type::Fun(_, _) => solver_one_message(
                pre,
                post,
                Message { span: at, kind: MessageKind::Incompatible(Some(ty), Some(Type::Number)) },
            ),
            Type::Product(_, _) => solver_one_message(
                pre,
                post,
                Message { span: at, kind: MessageKind::Incompatible(Some(ty), Some(Type::Number)) },
            ),
            Type::Instantiated(_, _) => true,
        },
        Constraint::Textual(at, ty) => clean_type(pre.unifier.subst.entries@, ty) ==> match ty {
            Type::Name(n) => if n == pre.text_name {
                solver_untouched(pre, post)
            } else {
                solver_one_message(
                    pre,
                    post,
                    Message {
                        span: at,
                        kind: MessageKind::Incompatible(Some(ty), Some(Type::Name(pre.text_name))),
                    },
                )
            },
            Type::Invalid => solver_untouched(pre, post),
            Type::Var(_, _) => solver_deferred(pre, post, Constraint::Textual(at, ty)),
            Type::Number => solver_one_message(
                pre,
                post,
                Message {
                    span: at,
                    kind: MessageKind::Incompatible(Some(ty), Some(Type::Name(pre.text_name))),
                },
            ),
            Type::Range(_, _) => solver_one_message(
                pre,
                post,
                Message {
                    span: at,
                    kind: MessageKind::Incompatible(Some(ty), Some(Type::Name(pre.text_name))),
                },
            ),
            Type::Fun(_, _) => solver_one_message(
                pre,
                post,
                Message {
                    span: at,
                    kind: MessageKind::Incompatible(Some(ty), Some(Type::Name(pre.text_name))),
                },
            ),
            Type::Product(_, _) => solver_one_message(
                pre,
                post,
                Message {
                    span: at,
                    kind: MessageKind::Incompatible(Some(ty), Some(Type::Name(pre.text_name))),
                },
            ),
            Type::Instantiated(_, _) => true,
        },
        Constraint::TypeNumeric(at, ty) => {
            &&& post.type_numeric@ == pre.type_numeric@.push((at, ty))
            &&& post.unifier == pre.unifier
            &&& post.constraints == pre.constraints
            &&& post.counts == pre.counts
        },
    }
}

/// What the defaulting pass does with one deferred second-chance numeric
/// obligation: an already numeric (or poisoned) type passes silently, a
/// still-unresolved placeholder is unified with the generic `Number` type,
/// and anything else draws exactly one incompatibility diagnostic.
pub open spec fn defaulting_effect(pre: Unifier, post: Unifier, at: Span, ty: Type) -> bool {
    clean_type(pre.subst.entries@, ty) ==> match ty {
        Type::Number => post == pre,
        Type::Range(_, _) => post == pre,
        Type::Invalid => post == pre,
        Type::Var(_, _) => unify_effect(pre, post, at, ty, Type::Number),
        Type::Name(_) => numeric_failure(pre, post, at, ty),
        Type::Fun(_, _) => numeric_failure(pre, post, at, ty),
        Type::Product(_, _) => numeric_failure(pre, post, at, ty),
        Type::Instantiated(_, _) => true,
    }
}

/// Exactly one diagnostic that `ty` is not numeric; nothing else changed.
pub open spec fn numeric_failure(pre: Unifier, post: Unifier, at: Span, ty: Type) -> bool {
    &&& post.messages@ == pre.messages@.push(
        Message { span: at, kind: MessageKind::Incompatible(Some(ty), Some(Type::Number)) },
    )
    &&& post.subst == pre.subst
    &&& post.causes == pre.causes
    &&& post.worklist == pre.worklist
}

impl Solver {
    pub open spec fn inv(self) -> bool {
        &&& self.unifier.inv()
        &&& forall|i: int|
            0 <= i < self.constraints@.len() ==> wf_constraint(#[trigger] self.constraints@[i])
        &&& forall|i: int|
            0 <= i < self.type_numeric@.len() ==> wf_type((#[trigger] self.type_numeric@[i]).1)
        &&& forall|i: int, j: int|
            0 <= i < self.shapes@.len() && 0 <= j < self.shapes@[i].1@.len() ==> wf_type(
                (#[trigger] self.shapes@[i].1@[j]).1,
            )
    }

    pub fn new(
        counts: Counts,
        constraints: Vec<Constraint>,
        shapes: Shapes,
        unit_name: NameId,
        text_name: NameId,
    ) -> (res: Self)
        requires
            forall|i: int| 0 <= i < constraints@.len() ==> wf_constraint(#[trigger] constraints@[i]),
            forall|i: int, j: int|
                0 <= i < shapes@.len() && 0 <= j < shapes@[i].1@.len() ==> wf_type(
                    (#[trigger] shapes@[i].1@[j]).1,
                ),
        ensures
            res.inv(),
            res.counts == counts,
            res.constraints == constraints,
            res.shapes == shapes,
            res.unit_name == unit_name,
            res.text_name == text_name,
            res.type_numeric@.len() == 0,
            res.unifier.subst.entries@.len() == 0,
            res.unifier.messages@.len() == 0,
            res.unifier.worklist@.len() == 0,
            res.unifier.causes@.len() == 0,
    {
        Solver {
            counts,
            constraints,
            type_numeric: Vec::new(),
            unifier: Unifier::new(),
            shapes,
            unit_name,
            text_name,
        }
    }

    /// Mint a unification placeholder for this span that no prior phase
    /// has used: each span carries its own counter, seeded by the caller
    /// with how many placeholders the span has already produced. The
    /// counter saturates at its maximum rather than wrapping.
    fn fresh(&mut self, span: Span) -> (res: Type)
        ensures
            final(self).constraints == old(self).constraints,
            final(self).type_numeric == old(self).type_numeric,
            final(self).unifier == old(self).unifier,
            final(self).shapes == old(self).shapes,
            final(self).unit_name == old(self).unit_name,
            final(self).text_name == old(self).text_name,
            res == Type::Var(
                Mutability::Mutable,
                UniVar { span, count: spec_count_of(old(self).counts@, span) },
            ),
            spec_count_of(old(self).counts@, span) < u64::MAX ==> spec_count_of(
                final(self).counts@,
                span,
            ) == spec_count_of(old(self).counts@, span) + 1,
            forall|sp: Span| sp != span ==> spec_count_of(final(self).counts@, sp)
                == spec_count_of(old(self).counts@, sp),
            wf_type(res),
    {
        let mut i: usize = 0;
        while i < self.counts.len()
            invariant
                self.constraints == old(self).constraints,
                self.type_numeric == old(self).type_numeric,
                self.unifier == old(self).unifier,
                self.shapes == old(self).shapes,
                self.unit_name == old(self).unit_name,
                self.text_name == old(self).text_name,
                self.counts == old(self).counts,
                i <= self.counts@.len(),
                forall|j: int| 0 <= j < i ==> (#[trigger] self.counts@[j]).0 != span,
            decreases self.counts@.len() - i,
        {
            if self.counts[i].0 == span {
                proof {
                    lemma_count_at(self.counts@, span, i as int);
                }
                let c = self.counts[i].1;
                let next = if c < u64::MAX {
                    c + 1
                } else {
                    c
                };
                let ghost before = self.counts@;
                self.counts.set(i, (span, next));
                proof {
                    lemma_count_at(self.counts@, span, i as int);
                    assert forall|sp: Span| sp != span implies spec_count_of(self.counts@, sp)
                        == spec_count_of(before, sp) by {
                        lemma_count_update_other(before, i as int, next, sp);
                        assert(self.counts@ =~= before.update(i as int, (before[i as int].0, next)));
                    }
                }
                return Type::Var(Mutability::Mutable, UniVar { span, count: c });
            }
            i = i + 1;
        }
        proof {
            lemma_count_absent(self.counts@, span);
        }
        let ghost before = self.counts@;
        self.counts.push((span, 1));
        proof {
            lemma_count_at(self.counts@, span, self.counts@.len() - 1);
            assert forall|sp: Span| sp != span implies spec_count_of(self.counts@, sp)
                == spec_count_of(before, sp) by {
                lemma_count_push_other(before, (span, 1u64), sp);
            }
        }
        Type::Var(Mutability::Mutable, UniVar { span, count: 0 })
    }

    /// Decide whether a type supports numeric operations, reading it
    /// through the store first: `Number`, any range, and `Invalid` qualify;
    /// an unresolved placeholder stays pending; anything else fails.
    fn numeric(&self, at: Span, ty: &Type) -> (res: NumericResult)
        requires
            self.inv(),
            wf_type(*ty),
        ensures
            res matches NumericResult::Unsolved(a2, t2) ==> wf_type(t2),
            clean_type(self.unifier.subst.entries@, *ty) ==> match *ty {
                Type::Number => res is Solved,
                Type::Range(_, _) => res is Solved,
                Type::Invalid => res is Solved,
                Type::Var(_, _) => res == NumericResult::Unsolved(at, *ty),
                Type::Name(_) => res == NumericResult::Failed(
                    Message {
                        span: at,
                        kind: MessageKind::Incompatible(Some(*ty), Some(Type::Number)),
                    },
                ),
                Type::Fun(_, _) => res == NumericResult::Failed(
                    Message {
                        span: at,
                        kind: MessageKind::Incompatible(Some(*ty), Some(Type::Number)),
                    },
                ),
                Type::Product(_, _) => res == NumericResult::Failed(
                    Message {
                        span: at,
                        kind: MessageKind::Incompatible(Some(*ty), Some(Type::Number)),
                    },
                ),
                Type::Instantiated(_, _) => true,
            },
    {
        let r0 = self.unifier.subst.resolve(ty, Ghost(0int));
        let ghost start = r0;
        let mut r = r0;
        while matches!(r, Type::Instantiated(_, _))
            invariant
                wf_type(r),
                !(start is Instantiated) ==> r == start,
            decreases crate::types::size_of(r),
        {
            if let Type::Instantiated(inner, _) = r {
                r = *inner;
            }
        }
        match r {
            Type::Number => NumericResult::Solved,
            Type::Range(_, _) => NumericResult::Solved,
            Type::Invalid => NumericResult::Solved,
            Type::Var(m, v) => NumericResult::Unsolved(at, Type::Var(m, v)),
            other => NumericResult::Failed(
                Message {
                    span: at,
                    kind: MessageKind::Incompatible(Some(other), Some(Type::Number)),
                },
            ),
        }
    }

    /// Report an obligation that never became solvable.
    fn report_unsolvable(&mut self, c: Constraint)
        ensures
            final(self).unifier.messages@ == old(self).unifier.messages@.push(
                Message { span: at_of(c), kind: MessageKind::Ambiguous },
            ),
            final(self).unifier.subst == old(self).unifier.subst,
            final(self).unifier.causes == old(self).unifier.causes,
            final(self).unifier.worklist == old(self).unifier.worklist,
            final(self).constraints == old(self).constraints,
            final(self).type_numeric == old(self).type_numeric,
            final(self).counts == old(self).counts,
            final(self).shapes == old(self).shapes,
            final(self).unit_name == old(self).unit_name,
            final(self).text_name == old(self).text_name,
    {
        let span = match &c {
            Constraint::Assignable { at, .. } => *at,
            Constraint::Equal(at, _, _) => *at,
            Constraint::Field { at, .. } => *at,
            Constraint::Instantiated(at, _, _) => *at,
            Constraint::UnitLike(at, _) => *at,
            Constraint::Numeric(at, _) => *at,
            Constraint::Textual(at, _) => *at,
            Constraint::TypeNumeric(at, _) => *at,
        };
        self.unifier.messages.push(Message { span, kind: MessageKind::Ambiguous });
    }

    /// Dispatch one obligation: resolve it now, reduce it to unifier calls,
    /// or defer it back onto the queue (a second-chance numeric obligation
    /// goes to its own list instead). A field obligation whose record type
    /// has no declared shape yet is deferred unchanged.
    fn solve_constraint(&mut self, c: Constraint)
        requires
            old(self).inv(),
            wf_constraint(c),
        ensures
            final(self).inv(),
            old(self).unifier.messages@.is_prefix_of(final(self).unifier.messages@),
            old(self).unifier.subst.entries@.is_prefix_of(final(self).unifier.subst.entries@),
            old(self).constraints@.is_prefix_of(final(self).constraints@),
            old(self).type_numeric@.is_prefix_of(final(self).type_numeric@),
            final(self).shapes == old(self).shapes,
            final(self).unit_name == old(self).unit_name,
            final(self).text_name == old(self).text_name,
            blocked_field(c, old(self).shapes@) ==> {
                &&& final(self).constraints@ == old(self).constraints@.push(c)
                &&& final(self).unifier == old(self).unifier
                &&& final(self).type_numeric == old(self).type_numeric
                &&& final(self).counts == old(self).counts
            },
            match c {
                Constraint::TypeNumeric(at, ty) => {
                    &&& final(self).type_numeric@ == old(self).type_numeric@.push((at, ty))
                    &&& final(self).unifier == old(self).unifier
                    &&& final(self).constraints == old(self).constraints
                    &&& final(self).counts == old(self).counts
                },
                _ => true,
            },
            constraint_effect(*old(self), *final(self), c),
    {
        let ghost pre = *self;
        match c {
            Constraint::Assignable { at, id: _, into, from } => {
                self.unifier.unify(at, into, from);
                proof {
                    lemma_seq_prefix_self(self.constraints@);
                    lemma_seq_prefix_self(self.type_numeric@);
                }
            }
            Constraint::Equal(at, t, u) => {
                self.unifier.unify(at, t, u);
                proof {
                    lemma_seq_prefix_self(self.constraints@);
                    lemma_seq_prefix_self(self.type_numeric@);
                }
            }
            Constraint::Field { at, target, of, field } => {
                proof {
                    if of is Name || of is Number || of is Range || of is Invalid {
                        assert(vars_of(of) =~= Set::<UniVar>::empty());
                        lemma_novars_clean(self.unifier.subst.entries@, of);
                    }
                    if of is Var && !spec_contains_var(
                        self.unifier.subst.entries@,
                        of->Var_1,
                    ) {
                        assert(vars_of(of) =~= Set::empty().insert(of->Var_1));
                        assert forall|w: UniVar| #[trigger] vars_of(of).contains(w)
                            implies !spec_contains_var(self.unifier.subst.entries@, w) by {
                            assert(w == of->Var_1);
                        }
                    }
                }
                let r0 = self.unifier.subst.resolve(&of, Ghost(0int));
                let ghost start = r0;
                let mut r = r0;
                while matches!(r, Type::Instantiated(_, _))
                    invariant
                        wf_type(r),
                        !(start is Instantiated) ==> r == start,
                    decreases crate::types::size_of(r),
                {
                    if let Type::Instantiated(inner, _) = r {
                        r = *inner;
                    }
                }
                proof {
                    if of is Name {
                        assert(vars_of(of) =~= Set::<UniVar>::empty());
                        lemma_novars_clean(self.unifier.subst.entries@, of);
                        assert(r0 == of);
                    }
                }
                match r {
                    Type::Var(_, _) => {
                        self.constraints.push(Constraint::Field { at, target, of, field });
                        proof {
                            lemma_seq_prefix_push(
                                pre.constraints@,
                                Constraint::Field { at, target, of, field },
                            );
                            lemma_seq_prefix_self(self.type_numeric@);
                            lemma_seq_prefix_self(self.unifier.messages@);
                            lemma_seq_prefix_self(self.unifier.subst.entries@);
                            assert forall|k: int| 0 <= k < self.constraints@.len()
                                implies wf_constraint(#[trigger] self.constraints@[k]) by {
                                if k < self.constraints@.len() - 1 {
                                    assert(self.constraints@[k] == pre.constraints@[k]);
                                }
                            }
                        }
                    }
                    Type::Name(n) => {
                        match self.find_shape(n) {
                            None => {
                                self.constraints.push(
                                    Constraint::Field { at, target, of, field },
                                );
                                proof {
                                    lemma_seq_prefix_push(
                                        pre.constraints@,
                                        Constraint::Field { at, target, of, field },
                                    );
                                    lemma_seq_prefix_self(self.type_numeric@);
                                    lemma_seq_prefix_self(self.unifier.messages@);
                                    lemma_seq_prefix_self(self.unifier.subst.entries@);
                                }
                            }
                            Some(i) => {
                                let ft_opt: Option<Type> = {
                                    let fields = &self.shapes[i].1;
                                    match find_field(fields, field) {
                                        Some(j) => {
                                            proof {
                                                assert(wf_type(
                                                    self.shapes@[i as int].1@[j as int].1,
                                                ));
                                            }
                                            Some(fields[j].1.clone())
                                        }
                                        None => None,
                                    }
                                };
                                match ft_opt {
                                    Some(ft) => {
                                        self.unifier.unify(at, target, ft);
                                    }
                                    None => {
                                        self.unifier.messages.push(
                                            Message {
                                                span: at,
                                                kind: MessageKind::Incompatible(
                                                    Some(Type::Name(n)),
                                                    None,
                                                ),
                                            },
                                        );
                                        proof {
                                            lemma_seq_prefix_push(
                                                pre.unifier.messages@,
                                                self.unifier.messages@.last(),
                                            );
                                            lemma_seq_prefix_self(self.unifier.subst.entries@);
                                        }
                                    }
                                }
                                proof {
                                    lemma_seq_prefix_self(self.constraints@);
                                    lemma_seq_prefix_self(self.type_numeric@);
                                }
                            }
                        }
                    }
                    Type::Invalid => {
                        proof {
                            lemma_seq_prefix_self(self.constraints@);
                            lemma_seq_prefix_self(self.type_numeric@);
                            lemma_seq_prefix_self(self.unifier.messages@);
                            lemma_seq_prefix_self(self.unifier.subst.entries@);
                            assert forall|k: int| 0 <= k < self.constraints@.len()
                                implies wf_constraint(#[trigger] self.constraints@[k]) by {
                                if k < self.constraints@.len() - 1 {
                                    assert(self.constraints@[k] == pre.constraints@[k]);
                                }
                            }
                        }
                    }
                    other => {
                        self.unifier.messages.push(
                            Message { span: at, kind: MessageKind::Incompatible(Some(other), None) },
                        );
                        proof {
                            lemma_seq_prefix_push(
                                pre.unifier.messages@,
                                self.unifier.messages@.last(),
                            );
                            lemma_seq_prefix_self(self.unifier.subst.entries@);
                            lemma_seq_prefix_self(self.constraints@);
                            lemma_seq_prefix_self(self.type_numeric@);
                        }
                    }
                }
            }
            Constraint::Instantiated(at, ty, template) => {
                let mut map: Vec<(NameId, Type)> = Vec::new();
                let mut i: usize = 0;
                while i < template.params.len()
                    invariant
                        self.inv(),
                        self.constraints == pre.constraints,
                        self.type_numeric == pre.type_numeric,
                        self.unifier == pre.unifier,
                        self.shapes == pre.shapes,
                        self.unit_name == pre.unit_name,
                        self.text_name == pre.text_name,
                        map@.len() == i,
                        i <= template.params@.len(),
                        forall|j: int| 0 <= j < map@.len() ==> wf_type((#[trigger] map@[j]).1),
                    decreases template.params@.len() - i,
                {
                    let v = self.fresh(at);
                    map.push((template.params[i], v));
                    i = i + 1;
                }
                let body2 = subst_rigid_names(&map, &template.body);
                let ghost gbody = body2;
                self.unifier.unify(at, ty, body2);
                proof {
                    lemma_seq_prefix_self(self.constraints@);
                    lemma_seq_prefix_self(self.type_numeric@);
                    assert(wf_type(gbody) && unify_effect(pre.unifier, self.unifier, at, ty, gbody));
                }
            }
            Constraint::UnitLike(at, ty) => {
                let designated = Type::Name(self.unit_name);
                self.unifier.unify(at, ty, designated);
                proof {
                    lemma_seq_prefix_self(self.constraints@);
                    lemma_seq_prefix_self(self.type_numeric@);
                }
            }
            Constraint::Numeric(at, ty) => {
                let res = self.numeric(at, &ty);
                match res {
                    NumericResult::Solved => {
                        proof {
                            lemma_seq_prefix_self(self.constraints@);
                            lemma_seq_prefix_self(self.type_numeric@);
                            lemma_seq_prefix_self(self.unifier.messages@);
                            lemma_seq_prefix_self(self.unifier.subst.entries@);
                            assert forall|k: int| 0 <= k < self.constraints@.len()
                                implies wf_constraint(#[trigger] self.constraints@[k]) by {
                                if k < self.constraints@.len() - 1 {
                                    assert(self.constraints@[k] == pre.constraints@[k]);
                                }
                            }
                        }
                    }
                    NumericResult::Unsolved(at2, ty2) => {
                        self.constraints.push(Constraint::Numeric(at2, ty2));
                        proof {
                            lemma_seq_prefix_push(
                                pre.constraints@,
                                self.constraints@.last(),
                            );
                            lemma_seq_prefix_self(self.type_numeric@);
                            lemma_seq_prefix_self(self.unifier.messages@);
                            lemma_seq_prefix_self(self.unifier.subst.entries@);
                            assert forall|k: int| 0 <= k < self.constraints@.len()
                                implies wf_constraint(#[trigger] self.constraints@[k]) by {
                                if k < self.constraints@.len() - 1 {
                                    assert(self.constraints@[k] == pre.constraints@[k]);
                                }
                            }
                        }
                    }
                    NumericResult::Failed(m) => {
                        self.unifier.messages.push(m);
                        proof {
                            lemma_seq_prefix_push(pre.unifier.messages@, self.unifier.messages@.last());
                            lemma_seq_prefix_self(self.unifier.subst.entries@);
                            lemma_seq_prefix_self(self.constraints@);
                            lemma_seq_prefix_self(self.type_numeric@);
                        }
                    }
                }
            }
            Constraint::Textual(at, ty) => {
                let res = self.textual(at, &ty);
                match res {
                    NumericResult::Solved => {
                        proof {
                            lemma_seq_prefix_self(self.constraints@);
                            lemma_seq_prefix_self(self.type_numeric@);
                            lemma_seq_prefix_self(self.unifier.messages@);
                            lemma_seq_prefix_self(self.unifier.subst.entries@);
                            assert forall|k: int| 0 <= k < self.constraints@.len()
                                implies wf_constraint(#[trigger] self.constraints@[k]) by {
                                if k < self.constraints@.len() - 1 {
                                    assert(self.constraints@[k] == pre.constraints@[k]);
                                }
                            }
                        }
                    }
                    NumericResult::Unsolved(at2, ty2) => {
                        self.constraints.push(Constraint::Textual(at2, ty2));
                        proof {
                            lemma_seq_prefix_push(
                                pre.constraints@,
                                self.constraints@.last(),
                            );
                            lemma_seq_prefix_self(self.type_numeric@);
                            lemma_seq_prefix_self(self.unifier.messages@);
                            lemma_seq_prefix_self(self.unifier.subst.entries@);
                            assert forall|k: int| 0 <= k < self.constraints@.len()
                                implies wf_constraint(#[trigger] self.constraints@[k]) by {
                                if k < self.constraints@.len() - 1 {
                                    assert(self.constraints@[k] == pre.constraints@[k]);
                                }
                            }
                        }
                    }
                    NumericResult::Failed(m) => {
                        self.unifier.messages.push(m);
                        proof {
                            lemma_seq_prefix_push(pre.unifier.messages@, self.unifier.messages@.last());
                            lemma_seq_prefix_self(self.unifier.subst.entries@);
                            lemma_seq_prefix_self(self.constraints@);
                            lemma_seq_prefix_self(self.type_numeric@);
                        }
                    }
                }
            }
            Constraint::TypeNumeric(at, ty) => {
                self.type_numeric.push((at, ty));
                proof {
                    lemma_seq_prefix_push(pre.type_numeric@, (at, ty));
                    lemma_seq_prefix_self(self.constraints@);
                    lemma_seq_prefix_self(self.unifier.messages@);
                    lemma_seq_prefix_self(self.unifier.subst.entries@);
                    assert forall|k: int| 0 <= k < self.type_numeric@.len() implies wf_type(
                        (#[trigger] self.type_numeric@[k]).1,
                    ) by {
                        if k < self.type_numeric@.len() - 1 {
                            assert(self.type_numeric@[k] == pre.type_numeric@[k]);
                        }
                    }
                }
            }
        }
    }

    /// The index of the declared shape for `n`, if any.
    fn find_shape(&self, n: NameId) -> (res: Option<usize>)
        ensures
            match res {
                Some(i) => 0 <= i < self.shapes@.len() && self.shapes@[i as int].0 == n
                    && spec_find_shape(self.shapes@, n) == Some(self.shapes@[i as int].1@),
                None => !shape_declared(self.shapes@, n) && spec_find_shape(
                    self.shapes@,
                    n,
                ) is None,
            },
    {
        let mut i: usize = 0;
        while i < self.shapes.len()
            invariant
                i <= self.shapes@.len(),
                forall|j: int| 0 <= j < i ==> (#[trigger] self.shapes@[j]).0 != n,
            decreases self.shapes@.len() - i,
        {
            if self.shapes[i].0 == n {
                proof {
                    lemma_find_shape_at(self.shapes@, n, i as int);
                }
                return Some(i);
            }
            i = i + 1;
        }
        proof {
            lemma_find_shape_absent(self.shapes@, n);
        }
        None
    }

    /// Decide whether a type is the designated text type, reading it
    /// through the store first: the designated nominal text type and
    /// `Invalid` qualify; an unresolved placeholder stays pending; anything
    /// else fails.
    fn textual(&self, at: Span, ty: &Type) -> (res: NumericResult)
        requires
            self.inv(),
            wf_type(*ty),
        ensures
            res matches NumericResult::Unsolved(a2, t2) ==> wf_type(t2),
            clean_type(self.unifier.subst.entries@, *ty) ==> match *ty {
                Type::Name(n) => if n == self.text_name {
                    res is Solved
                } else {
                    res == NumericResult::Failed(
                        Message {
                            span: at,
                            kind: MessageKind::Incompatible(
                                Some(*ty),
                                Some(Type::Name(self.text_name)),
                            ),
                        },
                    )
                },
                Type::Invalid => res is Solved,
                Type::Var(_, _) => res == NumericResult::Unsolved(at, *ty),
                Type::Number => res == NumericResult::Failed(
                    Message {
                        span: at,
                        kind: MessageKind::Incompatible(
                            Some(*ty),
                            Some(Type::Name(self.text_name)),
                        ),
                    },
                ),
                Type::Range(_, _) => res == NumericResult::Failed(
                    Message {
                        span: at,
                        kind: MessageKind::Incompatible(
                            Some(*ty),
                            Some(Type::Name(self.text_name)),
                        ),
                    },
                ),
                Type::Fun(_, _) => res == NumericResult::Failed(
                    Message {
                        span: at,
                        kind: MessageKind::Incompatible(
                            Some(*ty),
                            Some(Type::Name(self.text_name)),
                        ),
                    },
                ),
                Type::Product(_, _) => res == NumericResult::Failed(
                    Message {
                        span: at,
                        kind: MessageKind::Incompatible(
                            Some(*ty),
                            Some(Type::Name(self.text_name)),
                        ),
                    },
                ),
                Type::Instantiated(_, _) => true,
            },
    {
        let r0 = self.unifier.subst.resolve(ty, Ghost(0int));
        let ghost start = r0;
        let mut r = r0;
        while matches!(r, Type::Instantiated(_, _))
            invariant
                wf_type(r),
                !(start is Instantiated) ==> r == start,
            decreases crate::types::size_of(r),
        {
            if let Type::Instantiated(inner, _) = r {
                r = *inner;
            }
        }
        match r {
            Type::Name(n) => if n.0 == self.text_name.0 {
                NumericResult::Solved
            } else {
                NumericResult::Failed(
                    Message {
                        span: at,
                        kind: MessageKind::Incompatible(
                            Some(Type::Name(n)),
                            Some(Type::Name(self.text_name)),
                        ),
                    },
                )
            },
            Type::Invalid => NumericResult::Solved,
            Type::Var(m, v) => NumericResult::Unsolved(at, Type::Var(m, v)),
            other => NumericResult::Failed(
                Message {
                    span: at,
                    kind: MessageKind::Incompatible(Some(other), Some(Type::Name(self.text_name))),
                },
            ),
        }
    }

    /// One pass over the obligations deferred as second-chance numeric:
    /// check each again, and force a still-unresolved one to unify with the
    /// generic `Number` type instead of re-queueing it.
    fn solve_type_numerics(&mut self)
        requires
            old(self).inv(),
        ensures
            final(self).inv(),
            old(self).unifier.messages@.is_prefix_of(final(self).unifier.messages@),
            old(self).unifier.subst.entries@.is_prefix_of(final(self).unifier.subst.entries@),
            final(self).type_numeric@.len() == 0,
            final(self).constraints == old(self).constraints,
            final(self).shapes == old(self).shapes,
            old(self).type_numeric@.len() == 0 ==> final(self).unifier == old(self).unifier
                && final(self).counts == old(self).counts,
            old(self).type_numeric@.len() == 1 ==> defaulting_effect(
                old(self).unifier,
                final(self).unifier,
                old(self).type_numeric@[0].0,
                old(self).type_numeric@[0].1,
            ),
            old(self).type_numeric@.len() == 1 ==> match old(self).type_numeric@[0].1 {
                Type::Var(mo, v) => (mo == Mutability::Mutable && !spec_contains_var(
                    old(self).unifier.subst.entries@,
                    v,
                )) ==> {
                    &&& final(self).unifier.subst.entries@ == old(
                        self,
                    ).unifier.subst.entries@.push((v, Bindings::Nil, Type::Number))
                    &&& final(self).unifier.messages@ == old(self).unifier.messages@
                },
                _ => true,
            },
    {
        let ghost pre = *self;
        while self.type_numeric.len() != 0
            invariant
                self.inv(),
                pre.unifier.messages@.is_prefix_of(self.unifier.messages@),
                pre.unifier.subst.entries@.is_prefix_of(self.unifier.subst.entries@),
                self.constraints == pre.constraints,
                self.shapes == pre.shapes,
                self.unit_name == pre.unit_name,
                self.text_name == pre.text_name,
                self.counts == pre.counts,
                pre.type_numeric@.len() == 0 ==> *self == pre,
                pre.type_numeric@.len() == 1 ==> ((*self == pre && self.type_numeric@
                    =~= pre.type_numeric@) || (self.type_numeric@.len() == 0 && defaulting_effect(
                    pre.unifier,
                    self.unifier,
                    pre.type_numeric@[0].0,
                    pre.type_numeric@[0].1,
                ))),
            decreases self.type_numeric@.len(),
        {
            let ghost tn_pre = self.type_numeric@;
            let (at, ty) = self.type_numeric.remove(0);
            proof {
                assert(self.type_numeric@ =~= tn_pre.skip(1));
                assert forall|k: int| 0 <= k < self.type_numeric@.len() implies wf_type(
                    (#[trigger] self.type_numeric@[k]).1,
                ) by {
                    assert(self.type_numeric@[k] == tn_pre[k + 1]);
                }
                if ty is Var {
                    assert(vars_of(ty) =~= Set::empty().insert(ty->Var_1));
                    assert forall|w: UniVar| #[trigger] vars_of(ty).contains(w)
                        && !spec_contains_var(self.unifier.subst.entries@, ty->Var_1)
                        implies !spec_contains_var(self.unifier.subst.entries@, w) by {}
                }
            }
            match self.numeric(at, &ty) {
                NumericResult::Solved => {}
                NumericResult::Unsolved(at2, ty2) => {
                    self.unifier.unify(at2, ty2, Type::Number);
                }
                NumericResult::Failed(m) => {
                    self.unifier.messages.push(m);
                    proof {
                        lemma_seq_prefix_push(
                            self.unifier.messages@.drop_last(),
                            self.unifier.messages@.last(),
                        );
                        assert(self.unifier.messages@.drop_last() =~= self.unifier.messages@.take(
                            self.unifier.messages@.len() - 1,
                        ));
                    }
                }
            }
        }
        proof {
            if pre.type_numeric@.len() == 1 {
                let at0 = pre.type_numeric@[0].0;
                let ty0 = pre.type_numeric@[0].1;
                if ty0 is Var && ty0->Var_0 == Mutability::Mutable && !spec_contains_var(
                    pre.unifier.subst.entries@,
                    ty0->Var_1,
                ) {
                    let v = ty0->Var_1;
                    assert(vars_of(ty0) =~= Set::empty().insert(v));
                    assert forall|w: UniVar| #[trigger] vars_of(ty0).contains(w)
                        implies !spec_contains_var(pre.unifier.subst.entries@, w) by {
                        assert(w == v);
                    }
                    assert(vars_of(Type::Number) =~= Set::<UniVar>::empty());
                    lemma_novars_clean(pre.unifier.subst.entries@, Type::Number);
                    assert(unify_effect(pre.unifier, self.unifier, at0, ty0, Type::Number));
                }
            }
        }
    }

    /// Run the session to completion: repeatedly take the whole queue as
    /// one batch and dispatch every obligation in order; if a batch fails
    /// to shrink the queue, report everything left as ambiguous and stop.
    /// Then default the second-chance numeric obligations.
    pub fn solve(&mut self)
        requires
            old(self).inv(),
        ensures
            final(self).inv(),
            old(self).unifier.messages@.is_prefix_of(final(self).unifier.messages@),
            old(self).unifier.subst.entries@.is_prefix_of(final(self).unifier.subst.entries@),
            final(self).constraints@.len() == 0,
            final(self).type_numeric@.len() == 0,
            stalled_on_blocked_fields(*old(self), *final(self)),
            defaulted_lone_numeric(*old(self), *final(self)),
            defaulted_second_chance(*old(self), *final(self)),
            solved_closed_equalities(*old(self), *final(self)),
    {
        let ghost pre = *self;
        let ghost p6 = pre.type_numeric@.len() == 0 && (forall|i: int|
            0 <= i < pre.constraints@.len() ==> blocked_field(
                #[trigger] pre.constraints@[i],
                pre.shapes@,
            ));
        let ghost p7 = pre.constraints@.len() == 1 && pre.type_numeric@.len() == 0
            && pre.constraints@[0] is TypeNumeric;
        let ghost peq = pre.type_numeric@.len() == 0 && all_closed_equalities(pre.constraints@);
        let mut stalled: bool = false;
        while self.constraints.len() != 0 && !stalled
            invariant
                self.inv(),
                pre.unifier.messages@.is_prefix_of(self.unifier.messages@),
                pre.unifier.subst.entries@.is_prefix_of(self.unifier.subst.entries@),
                self.shapes == pre.shapes,
                self.unit_name == pre.unit_name,
                self.text_name == pre.text_name,
                stalled ==> self.constraints@.len() == 0,
                p6 == (pre.type_numeric@.len() == 0 && (forall|i: int|
                    0 <= i < pre.constraints@.len() ==> blocked_field(
                        #[trigger] pre.constraints@[i],
                        pre.shapes@,
                    ))),
                p7 == (pre.constraints@.len() == 1 && pre.type_numeric@.len() == 0
                    && pre.constraints@[0] is TypeNumeric),
                p6 ==> (!stalled ==> *self == pre),
                p6 ==> (stalled ==> {
                    &&& self.unifier.messages@ == pre.unifier.messages@ + ambiguous_msgs(
                        pre.constraints@,
                    )
                    &&& self.unifier.subst.entries@ == pre.unifier.subst.entries@
                    &&& self.type_numeric@.len() == 0
                }),
                p7 ==> (!stalled && ((*self == pre) || (self.constraints@.len() == 0
                    && self.type_numeric@ =~= seq![
                    (pre.constraints@[0]->TypeNumeric_0, pre.constraints@[0]->TypeNumeric_1),
                ] && self.unifier == pre.unifier && self.counts == pre.counts))),
                peq == (pre.type_numeric@.len() == 0 && all_closed_equalities(pre.constraints@)),
                peq ==> (!stalled && ((*self == pre) || {
                    &&& self.constraints@.len() == 0
                    &&& self.type_numeric@.len() == 0
                    &&& self.unifier.messages@ == pre.unifier.messages@ + equalities_msgs(
                        pre.constraints@,
                    )
                    &&& self.unifier.subst.entries@ == pre.unifier.subst.entries@
                    &&& self.unifier.causes@ == pre.unifier.causes@
                    &&& self.unifier.worklist@ == pre.unifier.worklist@
                    &&& self.counts == pre.counts
                })),
            decreases (if stalled {
                0int
            } else {
                self.constraints@.len() + 1int
            }),
        {
            let ghost round0 = *self;
            let mut batch: Vec<Constraint> = Vec::new();
            core::mem::swap(&mut batch, &mut self.constraints);
            let before = batch.len();
            let ghost batch0 = batch@;
            proof {
                assert(batch0.skip(0) =~= batch0);
                assert(batch0.take(0) =~= Seq::<Constraint>::empty());
                assert(self.constraints@ =~= Seq::<Constraint>::empty());
                if p6 {
                    assert(round0 == pre);
                    assert(batch@ =~= batch0.skip(batch0.len() - batch@.len()));
                    assert(self.constraints@ =~= batch0.take(batch0.len() - batch@.len()));
                    assert(self.unifier == pre.unifier);
                    assert(self.type_numeric@.len() == 0);
                    assert(self.counts == pre.counts);
                }
                if p7 {
                    assert(round0 == pre);
                    assert(batch@ =~= batch0);
                    assert(self.type_numeric@.len() == 0);
                }
                if peq {
                    assert(round0 == pre);
                    assert(self.unifier == pre.unifier);
                    assert(equalities_msgs(batch0.take(0)) =~= Seq::<Message>::empty());
                    assert(self.unifier.messages@ =~= pre.unifier.messages@ + equalities_msgs(
                        batch0.take(0),
                    ));
                }
            }
            while batch.len() != 0
                invariant
                    self.inv(),
                    forall|k: int| 0 <= k < batch@.len() ==> wf_constraint(#[trigger] batch@[k]),
                    round0.unifier.messages@.is_prefix_of(self.unifier.messages@),
                    round0.unifier.subst.entries@.is_prefix_of(self.unifier.subst.entries@),
                    self.shapes == round0.shapes,
                    self.unit_name == round0.unit_name,
                    self.text_name == round0.text_name,
                    batch@.len() <= batch0.len(),
                    round0 == pre ==> batch0 == pre.constraints@,
                    p6 == (pre.type_numeric@.len() == 0 && (forall|i: int|
                        0 <= i < pre.constraints@.len() ==> blocked_field(
                            #[trigger] pre.constraints@[i],
                            pre.shapes@,
                        ))),
                    p7 == (pre.constraints@.len() == 1 && pre.type_numeric@.len() == 0
                        && pre.constraints@[0] is TypeNumeric),
                    p6 && round0 == pre ==> {
                        &&& batch@ =~= batch0.skip(batch0.len() - batch@.len())
                        &&& self.constraints@ =~= batch0.take(batch0.len() - batch@.len())
                        &&& self.unifier == pre.unifier
                        &&& self.type_numeric@.len() == 0
                        &&& self.counts == pre.counts
                    },
                    p7 && round0 == pre ==> {
                        &&& self.unifier == pre.unifier
                        &&& self.counts == pre.counts
                        &&& self.constraints@.len() == 0
                        &&& ((batch@ =~= batch0 && self.type_numeric@.len() == 0) || (batch@.len()
                            == 0 && self.type_numeric@ =~= seq![
                            (
                                pre.constraints@[0]->TypeNumeric_0,
                                pre.constraints@[0]->TypeNumeric_1,
                            ),
                        ]))
                    },
                    peq == (pre.type_numeric@.len() == 0 && all_closed_equalities(
                        pre.constraints@,
                    )),
                    peq && round0 == pre ==> {
                        &&& batch@ =~= batch0.skip(batch0.len() - batch@.len())
                        &&& self.constraints@.len() == 0
                        &&& self.type_numeric@.len() == 0
                        &&& self.unifier.messages@ == pre.unifier.messages@ + equalities_msgs(
                            batch0.take(batch0.len() - batch@.len()),
                        )
                        &&& self.unifier.subst.entries@ == pre.unifier.subst.entries@
                        &&& self.unifier.causes@ == pre.unifier.causes@
                        &&& self.unifier.worklist@ == pre.unifier.worklist@
                        &&& self.counts == pre.counts
                    },
                decreases batch@.len(),
            {
                let ghost bpre = batch@;
                let c = batch.remove(0);
                proof {
                    assert(batch@ =~= bpre.skip(1));
                    assert forall|k: int| 0 <= k < batch@.len() implies wf_constraint(
                        #[trigger] batch@[k],
                    ) by {
                        assert(batch@[k] == bpre[k + 1]);
                    }
                    if p6 && round0 == pre {
                        assert(bpre[0] == batch0[batch0.len() - bpre.len()]);
                    }
                }
                proof {
                    if p6 && round0 == pre {
                        let j = batch0.len() - bpre.len();
                        assert(bpre =~= batch0.skip(j));
                        assert(c == batch0.skip(j)[0]);
                        assert(c == batch0[j]);
                        assert(batch0 == pre.constraints@);
                        assert(blocked_field(pre.constraints@[j], pre.shapes@));
                        assert(blocked_field(c, pre.shapes@));
                    }
                    if p7 && round0 == pre {
                        assert(bpre =~= batch0);
                        assert(c == batch0[0]);
                        assert(batch0 == pre.constraints@);
                    }
                    if peq && round0 == pre {
                        let j = batch0.len() - bpre.len();
                        assert(bpre =~= batch0.skip(j));
                        assert(c == batch0.skip(j)[0]);
                        assert(c == batch0[j]);
                        assert(batch0 == pre.constraints@);
                        assert(match pre.constraints@[j] {
                            Constraint::Equal(at, t, u) => closed_type(t) && closed_type(u),
                            _ => false,
                        });
                    }
                }
                let ghost step_pre = *self;
                self.solve_constraint(c);
                proof {
                    if p6 && round0 == pre {
                        assert(blocked_field(c, pre.shapes@));
                        assert(self.constraints@ =~= batch0.take(
                            batch0.len() - bpre.len(),
                        ).push(c));
                        assert(self.constraints@ =~= batch0.take(
                            batch0.len() - batch@.len(),
                        ));
                    }
                    if p7 && round0 == pre {
                        assert(c == pre.constraints@[0]);
                        assert(self.type_numeric@ =~= seq![
                            (
                                pre.constraints@[0]->TypeNumeric_0,
                                pre.constraints@[0]->TypeNumeric_1,
                            ),
                        ]);
                    }
                    if peq && round0 == pre {
                        let j = batch0.len() - bpre.len();
                        let at = c->Equal_0;
                        let t = c->Equal_1;
                        let u = c->Equal_2;
                        assert(unify_effect(step_pre.unifier, self.unifier, at, t, u));
                        assert(self.unifier.messages@ == step_pre.unifier.messages@ + closed_msgs(
                            at,
                            t,
                            u,
                        ));
                        lemma_eqmsgs_snoc(batch0, j);
                        assert((pre.unifier.messages@ + equalities_msgs(batch0.take(j)))
                            + closed_msgs(at, t, u) =~= pre.unifier.messages@ + (equalities_msgs(
                            batch0.take(j),
                        ) + closed_msgs(at, t, u)));
                        assert(self.unifier.messages@ == pre.unifier.messages@ + equalities_msgs(
                            batch0.take(j + 1),
                        ));
                        assert(batch0.len() - batch@.len() == j + 1);
                    }
                }
            }
            let after = self.constraints.len();
            if after >= before {
                proof {
                    if p7 && round0 == pre {
                        assert(before == 1);
                        assert(after == 0);
                        assert(false);
                    }
                    if peq && round0 == pre {
                        assert(after == 0 && before > 0);
                        assert(false);
                    }
                }
                let ghost drained_pre = *self;
                let ghost drain0 = self.constraints@;
                while self.constraints.len() != 0
                    invariant
                        self.inv(),
                        drained_pre.unifier.messages@.is_prefix_of(self.unifier.messages@),
                        self.unifier.subst == drained_pre.unifier.subst,
                        self.unifier.causes == drained_pre.unifier.causes,
                        self.unifier.worklist == drained_pre.unifier.worklist,
                        self.type_numeric == drained_pre.type_numeric,
                        self.counts == drained_pre.counts,
                        self.shapes == drained_pre.shapes,
                        self.unit_name == drained_pre.unit_name,
                        self.text_name == drained_pre.text_name,
                        self.constraints@.len() <= drain0.len(),
                        self.constraints@ =~= drain0.skip(drain0.len() - self.constraints@.len()),
                        self.unifier.messages@ =~= drained_pre.unifier.messages@ + ambiguous_msgs(
                            drain0.take(drain0.len() - self.constraints@.len()),
                        ),
                    decreases self.constraints@.len(),
                {
                    let ghost dpre = self.constraints@;
                    let ghost j = drain0.len() - dpre.len();
                    let c = self.constraints.remove(0);
                    proof {
                        assert(self.constraints@ =~= dpre.skip(1));
                        assert(c == drain0[j]);
                        assert forall|k: int| 0 <= k < self.constraints@.len()
                            implies wf_constraint(#[trigger] self.constraints@[k]) by {
                            assert(self.constraints@[k] == dpre[k + 1]);
                        }
                    }
                    self.report_unsolvable(c);
                    proof {
                        assert(ambiguous_msgs(drain0.take(j + 1)) =~= ambiguous_msgs(
                            drain0.take(j),
                        ).push(Message { span: at_of(drain0[j]), kind: MessageKind::Ambiguous }));
                        assert(self.unifier.messages@ =~= drained_pre.unifier.messages@
                            + ambiguous_msgs(drain0.take(j + 1)));
                        lemma_seq_prefix_concat(
                            drained_pre.unifier.messages@,
                            ambiguous_msgs(drain0.take(j + 1)),
                        );
                    }
                }
                stalled = true;
                proof {
                    assert(drain0.take(drain0.len() as int) =~= drain0);
                    lemma_seq_prefix_trans(
                        pre.unifier.messages@,
                        round0.unifier.messages@,
                        self.unifier.messages@,
                    );
                    lemma_seq_prefix_trans(
                        pre.unifier.subst.entries@,
                        round0.unifier.subst.entries@,
                        self.unifier.subst.entries@,
                    );
                    if p6 && round0 == pre {
                        assert(drain0 =~= batch0);
                        assert(batch0 =~= pre.constraints@);
                        assert(self.unifier.messages@ =~= pre.unifier.messages@ + ambiguous_msgs(
                            pre.constraints@,
                        ));
                    }
                }
            }
            proof {
                if peq && round0 == pre {
                    assert(batch0.take(batch0.len() as int) =~= batch0);
                }
            }
        }
        self.solve_type_numerics();
        proof {
            if peq && pre.constraints@.len() == 0 {
                assert(equalities_msgs(pre.constraints@) =~= Seq::<Message>::empty());
                assert(pre.unifier.messages@ + equalities_msgs(pre.constraints@)
                    =~= pre.unifier.messages@);
            }
        }
    }
}

/// Solve a whole batch of obligations from scratch: the final artifact is
/// the substitution store plus the accumulated diagnostics, ready for the
/// lowering stage to erase every placeholder.
pub fn solve(
    counts: Counts,
    constraints: Vec<Constraint>,
    shapes: Shapes,
    unit_name: NameId,
    text_name: NameId,
) -> (res: Solution)
    requires
        forall|i: int| 0 <= i < constraints@.len() ==> wf_constraint(#[trigger] constraints@[i]),
        forall|i: int, j: int|
            0 <= i < shapes@.len() && 0 <= j < shapes@[i].1@.len() ==> wf_type(
                (#[trigger] shapes@[i].1@[j]).1,
            ),
    ensures
        res.substitution.inv(),
        // a queue of only never-resolvable field obligations stalls after
        // one batch: one ambiguity report each, in order, nothing committed
        (forall|i: int|
            0 <= i < constraints@.len() ==> blocked_field(
                #[trigger] constraints@[i],
                shapes@,
            )) ==> res.messages@ == ambiguous_msgs(constraints@)
            && res.substitution.entries@.len() == 0,
        // a queue of equalities between closed types yields exactly each
        // obligation's structural diagnostics, in order, with nothing
        // committed
        all_closed_equalities(constraints@) ==> res.messages@ == equalities_msgs(constraints@)
            && res.substitution.entries@.len() == 0,
        // a lone second-chance numeric obligation takes exactly one
        // defaulting step: an unconstrained placeholder becomes Number with
        // no diagnostic, an already numeric type passes silently, anything
        // else draws exactly one incompatibility diagnostic
        constraints@.len() == 1 ==> match constraints@[0] {
            Constraint::TypeNumeric(at, ty) => match ty {
                Type::Var(mo, v) => res.messages@.len() == 0 && (mo == Mutability::Mutable
                    ==> res.substitution.entries@ =~= seq![(v, Bindings::Nil, Type::Number)]) && (
                mo == Mutability::Rigid ==> res.substitution.entries@.len() == 0),
                Type::Number => res.messages@.len() == 0 && res.substitution.entries@.len() == 0,
                Type::Range(_, _) => res.messages@.len() == 0 && res.substitution.entries@.len()
                    == 0,
                Type::Invalid => res.messages@.len() == 0 && res.substitution.entries@.len() == 0,
                Type::Name(_) => res.messages@ =~= seq![
                    Message {
                        span: at,
                        kind: MessageKind::Incompatible(Some(ty), Some(Type::Number)),
                    },
                ] && res.substitution.entries@.len() == 0,
                Type::Fun(_, _) => res.messages@ =~= seq![
                    Message {
                        span: at,
                        kind: MessageKind::Incompatible(Some(ty), Some(Type::Number)),
                    },
                ] && res.substitution.entries@.len() == 0,
                Type::Product(_, _) => res.messages@ =~= seq![
                    Message {
                        span: at,
                        kind: MessageKind::Incompatible(Some(ty), Some(Type::Number)),
                    },
                ] && res.substitution.entries@.len() == 0,
                Type::Instantiated(_, _) => true,
            },
            _ => true,
        },
{
    let ghost gconstraints = constraints@;
    let mut solver = Solver::new(counts, constraints, shapes, unit_name, text_name);
    let ghost s0 = solver;
    solver.solve();
    proof {
        assert(s0.unifier.subst.entries@ =~= Seq::<(UniVar, Bindings, Type)>::empty());
        if forall|i: int|
            0 <= i < gconstraints.len() ==> blocked_field(#[trigger] gconstraints[i], s0.shapes@) {
            assert(solver.unifier.messages@ == s0.unifier.messages@ + ambiguous_msgs(
                gconstraints,
            ));
            assert(solver.unifier.messages@ =~= ambiguous_msgs(gconstraints));
        }
        if all_closed_equalities(gconstraints) {
            assert(solver.unifier.messages@ == s0.unifier.messages@ + equalities_msgs(
                gconstraints,
            ));
            assert(solver.unifier.messages@ =~= equalities_msgs(gconstraints));
        }
        if gconstraints.len() == 1 && gconstraints[0] is TypeNumeric {
            let ty = gconstraints[0]->TypeNumeric_1;
            // the store starts empty, so any type is clean for it
            assert forall|w: UniVar| #[trigger] vars_of(ty).contains(w)
                implies !spec_contains_var(s0.unifier.subst.entries@, w) by {}
            assert(clean_type(s0.unifier.subst.entries@, ty));
            if ty is Var {
                assert(vars_of(Type::Number) =~= Set::<UniVar>::empty());
                lemma_novars_clean(s0.unifier.subst.entries@, Type::Number);
                assert(!vars_of(Type::Number).contains(ty->Var_1));
            }
        }
    }
    let Solver { counts: _, constraints: _, type_numeric: _, unifier, shapes: _, unit_name: _, text_name: _ } = solver;
    let Unifier { subst, causes: _, worklist: _, messages } = unifier;
    Solution { messages, substitution: subst }
}

} // verus!
