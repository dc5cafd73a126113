use zippy_tyck::solve::{solve, CoercionId, Constraint, Template};
use zippy_tyck::types::{
    Bindings, MessageKind, Mutability, NameId, Span, Type, UniVar,
};

fn span(n: u64) -> Span {
    Span { file: 0, lo: n, hi: n + 1 }
}

fn uv(n: u64) -> UniVar {
    UniVar { span: span(n), count: 0 }
}

fn mvar(n: u64) -> Type {
    Type::Var(Mutability::Mutable, uv(n))
}

const UNIT: NameId = NameId(900);
const TEXT: NameId = NameId(901);

fn run(constraints: Vec<Constraint>) -> zippy_tyck::solve::Solution {
    solve(Vec::new(), constraints, Vec::new(), UNIT, TEXT)
}

fn run_with_shapes(
    constraints: Vec<Constraint>,
    shapes: Vec<(NameId, Vec<(NameId, Type)>)>,
) -> zippy_tyck::solve::Solution {
    solve(Vec::new(), constraints, shapes, UNIT, TEXT)
}

#[test]
fn mutually_blocked_fields_stall_after_one_batch() {
    let constraints = vec![
        Constraint::Field {
            at: span(1),
            target: mvar(1),
            of: Type::Name(NameId(100)),
            field: NameId(1),
        },
        Constraint::Field {
            at: span(2),
            target: mvar(2),
            of: Type::Name(NameId(101)),
            field: NameId(2),
        },
    ];
    let sol = run(constraints);
    assert_eq!(sol.messages.len(), 2);
    assert_eq!(sol.messages[0].span, span(1));
    assert_eq!(sol.messages[0].kind, MessageKind::Ambiguous);
    assert_eq!(sol.messages[1].span, span(2));
    assert_eq!(sol.messages[1].kind, MessageKind::Ambiguous);
    assert_eq!(sol.substitution.entries.len(), 0);
}

#[test]
fn lone_type_numeric_defaults_to_number() {
    let sol = run(vec![Constraint::TypeNumeric(span(3), mvar(8))]);
    assert_eq!(sol.messages.len(), 0);
    assert_eq!(sol.substitution.entries.len(), 1);
    assert_eq!(sol.substitution.entries[0].0, uv(8));
    assert_eq!(sol.substitution.entries[0].1, Bindings::Nil);
    assert_eq!(sol.substitution.entries[0].2, Type::Number);
}

#[test]
fn field_on_declared_shape_resolves() {
    let shapes = vec![(NameId(10), vec![(NameId(1), Type::Range(0, 5))])];
    let sol = run_with_shapes(
        vec![Constraint::Field {
            at: span(1),
            target: mvar(4),
            of: Type::Name(NameId(10)),
            field: NameId(1),
        }],
        shapes,
    );
    assert_eq!(sol.messages.len(), 0);
    assert_eq!(sol.substitution.entries.len(), 1);
    assert_eq!(sol.substitution.entries[0].0, uv(4));
    assert_eq!(sol.substitution.entries[0].2, Type::Range(0, 5));
}

#[test]
fn field_missing_from_shape_is_incompatible() {
    let shapes = vec![(NameId(10), vec![(NameId(1), Type::Range(0, 5))])];
    let sol = run_with_shapes(
        vec![Constraint::Field {
            at: span(1),
            target: mvar(4),
            of: Type::Name(NameId(10)),
            field: NameId(2),
        }],
        shapes,
    );
    assert_eq!(sol.messages.len(), 1);
    assert!(matches!(sol.messages[0].kind, MessageKind::Incompatible(Some(_), None)));
}

#[test]
fn equal_delegates_to_unifier() {
    let sol = run(vec![Constraint::Equal(span(1), Type::Number, Type::Range(0, 3))]);
    assert_eq!(sol.messages.len(), 0);
}

#[test]
fn assignable_permits_one_directional_narrowing() {
    let ok = run(vec![Constraint::Assignable {
        at: span(1),
        id: CoercionId(0),
        into: Type::Range(0, 10),
        from: Type::Range(2, 5),
    }]);
    assert_eq!(ok.messages.len(), 0);
    let bad = run(vec![Constraint::Assignable {
        at: span(2),
        id: CoercionId(1),
        into: Type::Range(2, 5),
        from: Type::Range(0, 10),
    }]);
    assert_eq!(bad.messages.len(), 1);
    assert_eq!(bad.messages[0].kind, MessageKind::NarrowRange((2, 5), (0, 10)));
}

#[test]
fn unitlike_accepts_only_the_unit_type() {
    let ok = run(vec![Constraint::UnitLike(span(1), Type::Name(UNIT))]);
    assert_eq!(ok.messages.len(), 0);
    let bad = run(vec![Constraint::UnitLike(span(2), Type::Name(NameId(5)))]);
    assert_eq!(bad.messages.len(), 1);
}

#[test]
fn numeric_accepts_numbers_and_ranges() {
    let ok = run(vec![
        Constraint::Numeric(span(1), Type::Number),
        Constraint::Numeric(span(2), Type::Range(-3, 3)),
        Constraint::Numeric(span(3), Type::Invalid),
    ]);
    assert_eq!(ok.messages.len(), 0);
}

#[test]
fn numeric_rejects_functions() {
    let bad = run(vec![Constraint::Numeric(
        span(1),
        Type::Fun(Box::new(Type::Number), Box::new(Type::Number)),
    )]);
    assert_eq!(bad.messages.len(), 1);
    assert!(matches!(
        bad.messages[0].kind,
        MessageKind::Incompatible(Some(_), Some(Type::Number))
    ));
}

#[test]
fn pending_numeric_alone_stalls_as_ambiguous() {
    let sol = run(vec![Constraint::Numeric(span(4), mvar(6))]);
    assert_eq!(sol.messages.len(), 1);
    assert_eq!(sol.messages[0].kind, MessageKind::Ambiguous);
    assert_eq!(sol.messages[0].span, span(4));
}

#[test]
fn textual_accepts_only_the_text_type() {
    let ok = run(vec![Constraint::Textual(span(1), Type::Name(TEXT))]);
    assert_eq!(ok.messages.len(), 0);
    let bad = run(vec![Constraint::Textual(span(2), Type::Number)]);
    assert_eq!(bad.messages.len(), 1);
}

#[test]
fn instantiation_commits_through_fresh_placeholders() {
    let sol = run(vec![Constraint::Instantiated(
        span(1),
        mvar(5),
        Template { params: Vec::new(), body: Type::Number },
    )]);
    assert_eq!(sol.messages.len(), 0);
    assert_eq!(sol.substitution.entries.len(), 1);
    assert_eq!(sol.substitution.entries[0].0, uv(5));
    assert_eq!(sol.substitution.entries[0].2, Type::Number);
}

#[test]
fn type_numeric_already_constrained_stays_silent() {
    // the placeholder is first committed to a range, so the second-chance
    // numeric check sees a numeric type and does not default it
    let sol = run(vec![
        Constraint::Equal(span(1), mvar(7), Type::Range(0, 9)),
        Constraint::TypeNumeric(span(2), mvar(7)),
    ]);
    assert_eq!(sol.messages.len(), 0);
    assert_eq!(sol.substitution.entries.len(), 1);
    assert_eq!(sol.substitution.entries[0].2, Type::Range(0, 9));
}

#[test]
fn progress_then_stall_reports_only_survivors() {
    let constraints = vec![
        Constraint::Equal(span(1), Type::Number, Type::Range(0, 3)),
        Constraint::Field {
            at: span(2),
            target: mvar(1),
            of: Type::Name(NameId(404)),
            field: NameId(1),
        },
    ];
    let sol = run(constraints);
    // the first round solves the equality and keeps the field obligation;
    // the second round makes no progress, so only the field is ambiguous
    assert_eq!(sol.messages.len(), 1);
    assert_eq!(sol.messages[0].span, span(2));
    assert_eq!(sol.messages[0].kind, MessageKind::Ambiguous);
}
