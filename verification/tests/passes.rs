use zippy_tyck::hir;
use zippy_tyck::lower::{
    lower, MirType, TypedDecls, TypedExpr, TypedExprNode, TypedPat, TypedPatNode, TypedValueDef,
};
use zippy_tyck::parse::{Expr, ExprNode, ParseMessageKind, Unconcretifier};
use zippy_tyck::resolve::Resolver;
use zippy_tyck::types::{NameId, Span, Type};

fn span(n: u64) -> Span {
    Span { file: 0, lo: n, hi: n + 1 }
}

fn cst(node: ExprNode, n: u64) -> Expr {
    Expr { node, span: span(n) }
}

#[test]
fn lambda_gets_a_fresh_binder() {
    let lam = cst(
        ExprNode::Lam(
            Box::new(cst(ExprNode::Name("x".to_owned()), 1)),
            Box::new(cst(ExprNode::Name("x".to_owned()), 2)),
        ),
        3,
    );
    let mut u = Unconcretifier::new();
    let out = u.unconcretify(lam);
    assert_eq!(u.msgs.len(), 0);
    match out.node {
        hir::ExprNode::Lam(id, pat, body) => {
            assert_eq!(id, hir::BindId(0));
            assert!(matches!(pat.node, hir::PatNode::Name(ref n) if n == "x"));
            assert!(matches!(body.node, hir::ExprNode::Name(ref n) if n == "x"));
        }
        _ => panic!("expected a lambda"),
    }
}

#[test]
fn range_expression_desugars_to_upto() {
    let range = cst(
        ExprNode::Range(
            span(9),
            Box::new(cst(ExprNode::Int(1), 1)),
            Box::new(cst(ExprNode::Int(5), 2)),
        ),
        3,
    );
    let mut u = Unconcretifier::new();
    let out = u.unconcretify(range);
    assert_eq!(u.msgs.len(), 0);
    match out.node {
        hir::ExprNode::App(fun, hi) => {
            assert!(matches!(hi.node, hir::ExprNode::Int(5)));
            match fun.node {
                hir::ExprNode::App(op, lo) => {
                    assert!(matches!(op.node, hir::ExprNode::Name(ref n) if n == "upto"));
                    assert!(matches!(lo.node, hir::ExprNode::Int(1)));
                }
                _ => panic!("expected the upto application"),
            }
        }
        _ => panic!("expected an application"),
    }
}

#[test]
fn group_is_transparent() {
    let grouped = cst(
        ExprNode::Group(Box::new(cst(ExprNode::Int(7), 4))),
        5,
    );
    let mut u = Unconcretifier::new();
    let out = u.unconcretify(grouped);
    assert!(matches!(out.node, hir::ExprNode::Int(7)));
    assert_eq!(out.span, span(4));
}

#[test]
fn non_pattern_is_reported() {
    let lam = cst(
        ExprNode::Lam(
            Box::new(cst(ExprNode::Int(3), 1)),
            Box::new(cst(ExprNode::Name("x".to_owned()), 2)),
        ),
        3,
    );
    let mut u = Unconcretifier::new();
    let out = u.unconcretify(lam);
    assert_eq!(u.msgs.len(), 1);
    assert_eq!(u.msgs[0].kind, ParseMessageKind::NotAPattern);
    assert_eq!(u.msgs[0].span, span(1));
    assert!(matches!(out.node, hir::ExprNode::Lam(_, ref p, _) if matches!(p.node, hir::PatNode::Invalid)));
}

#[test]
fn annotation_range_must_hold_ints() {
    let good = cst(
        ExprNode::Anno(
            Box::new(cst(ExprNode::Name("x".to_owned()), 1)),
            Box::new(cst(
                ExprNode::Range(
                    span(9),
                    Box::new(cst(ExprNode::Int(1), 2)),
                    Box::new(cst(ExprNode::Int(5), 3)),
                ),
                4,
            )),
        ),
        5,
    );
    let mut u = Unconcretifier::new();
    let out = u.unconcretify(good);
    assert_eq!(u.msgs.len(), 0);
    match out.node {
        hir::ExprNode::Anno(_, anno) => {
            assert!(matches!(anno.node, hir::TypeNode::Range(1, 5)));
        }
        _ => panic!("expected an annotation"),
    }

    let bad = cst(
        ExprNode::Anno(
            Box::new(cst(ExprNode::Name("x".to_owned()), 1)),
            Box::new(cst(
                ExprNode::Range(
                    span(9),
                    Box::new(cst(ExprNode::Name("y".to_owned()), 2)),
                    Box::new(cst(ExprNode::Int(5), 3)),
                ),
                4,
            )),
        ),
        5,
    );
    let mut u2 = Unconcretifier::new();
    let out2 = u2.unconcretify(bad);
    assert_eq!(u2.msgs.len(), 1);
    assert_eq!(u2.msgs[0].kind, ParseMessageKind::RangeNotAnInt);
    assert!(matches!(out2.node, hir::ExprNode::Anno(_, ref anno) if matches!(anno.node, hir::TypeNode::Invalid)));
}

#[test]
fn non_type_annotation_is_reported() {
    let bad = cst(
        ExprNode::Anno(
            Box::new(cst(ExprNode::Name("x".to_owned()), 1)),
            Box::new(cst(ExprNode::Int(3), 2)),
        ),
        5,
    );
    let mut u = Unconcretifier::new();
    let _ = u.unconcretify(bad);
    assert_eq!(u.msgs.len(), 1);
    assert_eq!(u.msgs[0].kind, ParseMessageKind::NotAType);
}

#[test]
fn lowering_interns_every_written_type() {
    let decls = TypedDecls {
        values: vec![TypedValueDef {
            span: span(1),
            pat: TypedPat {
                node: TypedPatNode::Name(NameId(1)),
                span: span(2),
                data: Type::Range(0, 5),
            },
            bind: TypedExpr {
                node: TypedExprNode::Int(3),
                span: span(3),
                data: Type::Range(0, 5),
            },
        }],
    };
    let (types, lowered) = lower(decls);
    assert_eq!(lowered.values.len(), 1);
    assert_eq!(lowered.values[0].span, span(1));
    assert_eq!(types.types[lowered.values[0].pat.typ.0], MirType::Range(0, 5));
    assert_eq!(types.types[lowered.values[0].bind.typ.0], MirType::Range(0, 5));
}

#[test]
fn lowering_keeps_invalid_expressions() {
    let decls = TypedDecls {
        values: vec![TypedValueDef {
            span: span(1),
            pat: TypedPat {
                node: TypedPatNode::Invalid,
                span: span(2),
                data: Type::Range(0, 1),
            },
            bind: TypedExpr {
                node: TypedExprNode::Int(3),
                span: span(3),
                data: Type::Invalid,
            },
        }],
    };
    let (types, lowered) = lower(decls);
    assert_eq!(types.types[lowered.values[0].bind.typ.0], MirType::Invalid);
}

#[test]
fn declare_expr_collects_pattern_names() {
    let expr = hir::Expr {
        node: hir::ExprNode::Lam(
            hir::BindId(0),
            hir::Pat { node: hir::PatNode::Name("x".to_owned()), span: span(1) },
            Box::new(hir::Expr {
                node: hir::ExprNode::App(
                    Box::new(hir::Expr {
                        node: hir::ExprNode::Name("x".to_owned()),
                        span: span(2),
                    }),
                    Box::new(hir::Expr { node: hir::ExprNode::Int(1), span: span(3) }),
                ),
                span: span(4),
            }),
        ),
        span: span(5),
    };
    let mut r = Resolver::new();
    r.declare_expr(&expr);
    assert_eq!(r.scopes.len(), 0);
    assert_eq!(r.declared.len(), 1);
    assert_eq!(r.declared[0].0, "x");
    assert_eq!(r.declared[0].1, span(1));
}

#[test]
fn range_desugar_joins_operand_and_operator_spans() {
    let range = cst(
        ExprNode::Range(
            Span { file: 0, lo: 3, hi: 4 },
            Box::new(cst(ExprNode::Int(1), 1)),
            Box::new(cst(ExprNode::Int(5), 6)),
        ),
        2,
    );
    let mut u = Unconcretifier::new();
    let out = u.unconcretify(range);
    match out.node {
        hir::ExprNode::App(fun, _) => {
            // the inner application spans the low bound and the operator
            assert_eq!(fun.span, Span { file: 0, lo: 1, hi: 4 });
        }
        _ => panic!("expected an application"),
    }
}
