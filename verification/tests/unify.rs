use zippy_tyck::types::{
    Bindings, GroundType, Message, MessageKind, Mutability, Span, NameId, Type, UniVar,
};
use zippy_tyck::unify::Unifier;

fn span(n: u64) -> Span {
    Span { file: 0, lo: n, hi: n + 1 }
}

fn uv(n: u64) -> UniVar {
    UniVar { span: span(n), count: 0 }
}

fn mvar(n: u64) -> Type {
    Type::Var(Mutability::Mutable, uv(n))
}

#[test]
fn reflexivity_closed_types() {
    let samples = vec![
        Type::Number,
        Type::Invalid,
        Type::Range(3, 7),
        Type::Name(NameId(5)),
        Type::Fun(Box::new(Type::Range(0, 9)), Box::new(Type::Number)),
        Type::Product(Box::new(Type::Number), Box::new(Type::Range(-2, 2))),
    ];
    for t in samples {
        let copy = t.clone();
        let mut u = Unifier::new();
        u.unify(span(1), t, copy);
        assert_eq!(u.messages.len(), 0);
        assert_eq!(u.subst.len(), 0);
        assert_eq!(u.worklist.len(), 0);
    }
}

#[test]
fn range_containment_succeeds() {
    let mut u = Unifier::new();
    u.unify(span(1), Type::Range(0, 10), Type::Range(2, 5));
    assert_eq!(u.messages.len(), 0);
}

#[test]
fn range_containment_narrow() {
    let mut u = Unifier::new();
    u.unify(span(1), Type::Range(0, 10), Type::Range(-1, 5));
    assert_eq!(u.messages.len(), 1);
    assert_eq!(
        u.messages[0],
        Message { span: span(1), kind: MessageKind::NarrowRange((0, 10), (-1, 5)) }
    );
}

#[test]
fn number_absorbs_any_range() {
    let mut u = Unifier::new();
    u.unify(span(1), Type::Number, Type::Range(0, 10));
    assert_eq!(u.messages.len(), 0);
}

#[test]
fn range_does_not_absorb_number() {
    let mut u = Unifier::new();
    u.unify(span(1), Type::Range(0, 10), Type::Number);
    assert_eq!(u.messages.len(), 1);
    assert!(matches!(u.messages[0].kind, MessageKind::Incompatible(Some(_), Some(_))));
}

#[test]
fn occurs_check_poisons_placeholder() {
    let v = uv(7);
    let cyclic = Type::Fun(
        Box::new(Type::Var(Mutability::Mutable, v)),
        Box::new(Type::Number),
    );
    let mut u = Unifier::new();
    u.unify(span(1), Type::Var(Mutability::Mutable, v), cyclic);
    assert_eq!(u.messages.len(), 1);
    assert!(matches!(u.messages[0].kind, MessageKind::RecursiveInference(w, _) if w == v));
    let stored = u.subst.lookup(Mutability::Mutable, v).expect("poisoned entry");
    assert_eq!(stored.1, Type::Invalid);
}

#[test]
fn write_once_resolves_through_store() {
    let v = uv(3);
    let mut u = Unifier::new();
    u.unify(span(1), mvar(3), Type::Range(0, 10));
    assert_eq!(u.messages.len(), 0);
    assert_eq!(u.subst.len(), 1);
    // re-unifying against a tighter range reads through the store silently
    u.unify(span(2), mvar(3), Type::Range(2, 5));
    assert_eq!(u.messages.len(), 0);
    let stored = u.subst.lookup(Mutability::Mutable, v).expect("committed entry");
    assert_eq!(stored.1, Type::Range(0, 10));
    assert_eq!(u.subst.len(), 1);
}

#[test]
fn invalid_absorbs_silently() {
    let mut u = Unifier::new();
    u.unify(span(1), Type::Invalid, Type::Range(0, 10));
    assert_eq!(u.messages.len(), 0);
    u.unify(
        span(2),
        Type::Fun(Box::new(Type::Invalid), Box::new(Type::Number)),
        Type::Fun(Box::new(Type::Range(0, 5)), Box::new(Type::Number)),
    );
    assert_eq!(u.messages.len(), 0);
}

#[test]
fn names_compare_by_identity() {
    let mut u = Unifier::new();
    u.unify(span(1), Type::Name(NameId(1)), Type::Name(NameId(1)));
    assert_eq!(u.messages.len(), 0);
    u.unify(span(2), Type::Name(NameId(1)), Type::Name(NameId(2)));
    assert_eq!(u.messages.len(), 1);
    assert_eq!(u.messages[0].kind, MessageKind::Incompatible(None, None));
}

#[test]
fn component_clashes_do_not_short_circuit() {
    let mut u = Unifier::new();
    u.unify(
        span(1),
        Type::Fun(Box::new(Type::Range(0, 1)), Box::new(Type::Range(0, 1))),
        Type::Fun(Box::new(Type::Number), Box::new(Type::Number)),
    );
    // both components are reported, not only the first
    assert_eq!(u.messages.len(), 2);
}

#[test]
fn rigid_placeholder_is_deferred() {
    let v = uv(9);
    let mut u = Unifier::new();
    u.unify(span(4), Type::Var(Mutability::Rigid, v), Type::Number);
    assert_eq!(u.messages.len(), 0);
    assert_eq!(u.subst.len(), 0);
    assert_eq!(u.worklist.len(), 1);
    assert_eq!(u.worklist[0].0, span(4));
    assert_eq!(u.worklist[0].1, Type::Var(Mutability::Rigid, v));
    assert_eq!(u.worklist[0].2, Type::Number);
}

#[test]
fn mutable_placeholder_commits_to_other_side() {
    let v = uv(2);
    let mut u = Unifier::new();
    u.unify(span(1), mvar(2), Type::Number);
    assert_eq!(u.messages.len(), 0);
    let stored = u.subst.lookup(Mutability::Mutable, v).expect("committed");
    assert_eq!(stored.1, Type::Number);
    assert_eq!(u.causes.len(), 1);
}

#[test]
fn instantiation_context_resolves_names() {
    // Name 7 instantiated as the 0..5 range accepts a narrower range
    let inst = Bindings::Cons(NameId(7), GroundType::Range(0, 5), Box::new(Bindings::Nil));
    let wrapped = Type::Instantiated(Box::new(Type::Name(NameId(7))), inst);
    let mut u = Unifier::new();
    u.unify(span(1), wrapped, Type::Range(1, 4));
    assert_eq!(u.messages.len(), 0);
}

#[test]
fn identical_placeholders_are_a_no_op() {
    let mut u = Unifier::new();
    u.unify(span(1), mvar(5), mvar(5));
    assert_eq!(u.messages.len(), 0);
    assert_eq!(u.subst.len(), 0);
    assert_eq!(u.worklist.len(), 0);
}

#[test]
fn placeholder_on_actual_side_commits() {
    let v = uv(11);
    let mut u = Unifier::new();
    u.unify(span(1), Type::Number, Type::Var(Mutability::Mutable, v));
    assert_eq!(u.messages.len(), 0);
    let stored = u.subst.lookup(Mutability::Mutable, v).expect("committed");
    assert_eq!(stored.1, Type::Number);
}

#[test]
fn rendering_spells_out_types() {
    let empty = Unifier::new();
    assert_eq!(
        zippy_tyck::render::rendered(&Type::Range(0, 10), &empty.subst),
        "0 upto 10"
    );
    assert_eq!(
        zippy_tyck::render::rendered(
            &Type::Fun(Box::new(Type::Range(-3, 5)), Box::new(Type::Number)),
            &empty.subst
        ),
        "(-3 upto 5 -> number)"
    );
    assert_eq!(
        zippy_tyck::render::rendered(&Type::Name(NameId(5)), &empty.subst),
        "#5"
    );
    assert_eq!(zippy_tyck::render::rendered(&mvar(0), &empty.subst), "?0");
}

#[test]
fn rendering_resolves_one_hop_through_the_snapshot() {
    let mut u = Unifier::new();
    u.unify(span(1), mvar(4), Type::Range(2, 8));
    assert_eq!(
        zippy_tyck::render::rendered(&mvar(4), &u.subst),
        "2 upto 8"
    );
}
