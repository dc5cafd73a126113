//! From the concrete syntax tree to the high-level tree. The parser itself
//! is accepting — `(x => x) => x` parses — so this pass validates shapes:
//! range and arrow syntax becomes applications of the built-in `upto` and
//! `->` operators in expression position and real types in annotation
//! position, and anything that cannot be a pattern or a type is reported
//! and replaced by an invalid node.

use vstd::prelude::*;

use crate::hir;
use crate::types::Span;

verus! {

/// A concrete-syntax expression: the parser does not yet distinguish
/// expressions, patterns and types.
#[derive(Debug)]
pub struct Expr {
    pub node: ExprNode,
    pub span: Span,
}

#[derive(Debug)]
pub enum ExprNode {
    Name(String),
    Int(u64),
    Group(Box<Expr>),
    Range(Span, Box<Expr>, Box<Expr>),
    Fun(Span, Box<Expr>, Box<Expr>),
    Lam(Box<Expr>, Box<Expr>),
    App(Box<Expr>, Box<Expr>),
    Anno(Box<Expr>, Box<Expr>),
    Invalid,
}

/// What this pass can complain about.
#[derive(Clone, Copy, Debug, PartialEq, Eq, Structural)]
pub enum ParseMessageKind {
    NotAPattern,
    NotAType,
    RangeNotAnInt,
}

#[derive(Clone, Copy, Debug, PartialEq, Eq, Structural)]
pub struct ParseMessage {
    pub span: Span,
    pub kind: ParseMessageKind,
}

/// Grouping parentheses around an expression, stripped: what this pass
/// actually looks at.
pub open spec fn strip_groups(e: Expr) -> Expr
    decreases e,
{
    match e.node {
        ExprNode::Group(inner) => strip_groups(*inner),
        _ => e,
    }
}

/// The integer literal an expression is, read through grouping
/// parentheses, if it is one.
pub open spec fn int_value(e: Expr) -> Option<i64> {
    match strip_groups(e).node {
        ExprNode::Int(i) => Some(i as i64),
        _ => None,
    }
}

/// The source positions `a` and `b` taken together.
pub open spec fn spec_join(a: Span, b: Span) -> Span {
    Span {
        file: a.file,
        lo: if a.lo <= b.lo {
            a.lo
        } else {
            b.lo
        },
        hi: if a.hi >= b.hi {
            a.hi
        } else {
            b.hi
        },
    }
}

/// Exactly the pattern this pass produces, with its diagnostics: a name or
/// an invalid node passes through, groups are transparent, and anything
/// else is one not-a-pattern report plus an invalid node.
pub open spec fn spec_unconc_pat(p: Expr) -> (hir::Pat<String>, Seq<ParseMessage>)
    decreases p,
{
    match p.node {
        ExprNode::Name(name) => (
            hir::Pat { node: hir::PatNode::Name(name), span: p.span },
            Seq::empty(),
        ),
        ExprNode::Group(inner) => spec_unconc_pat(*inner),
        ExprNode::Invalid => (
            hir::Pat { node: hir::PatNode::Invalid, span: p.span },
            Seq::empty(),
        ),
        _ => (
            hir::Pat { node: hir::PatNode::Invalid, span: p.span },
            seq![ParseMessage { span: p.span, kind: ParseMessageKind::NotAPattern }],
        ),
    }
}

fn join(a: Span, b: Span) -> (res: Span)
    ensures
        res == spec_join(a, b),
{
    Span {
        file: a.file,
        lo: if a.lo <= b.lo {
            a.lo
        } else {
            b.lo
        },
        hi: if a.hi >= b.hi {
            a.hi
        } else {
            b.hi
        },
    }
}

/// The validation pass: accumulates diagnostics and mints binder ids.
#[derive(Debug)]
pub struct Unconcretifier {
    pub msgs: Vec<ParseMessage>,
    pub bind_id: u64,
}

impl Unconcretifier {
    pub fn new() -> (res: Self)
        ensures
            res.msgs@.len() == 0,
    {
        Unconcretifier { msgs: Vec::new(), bind_id: 0 }
    }

    /// Validate a whole parsed expression. Diagnostics are only ever
    /// appended; grouping parentheses are transparent; a name, literal or
    /// invalid node passes through unchanged, and every other node keeps
    /// its shape: range and arrow syntax become applications, lambdas stay
    /// lambdas, annotations stay annotations.
    pub fn unconcretify(&mut self, expr: Expr) -> (res: hir::Expr<String>)
        ensures
            old(self).msgs@.is_prefix_of(final(self).msgs@),
            final(self).bind_id >= old(self).bind_id,
            res.span == strip_groups(expr).span,
            match strip_groups(expr).node {
                ExprNode::Name(n) => res.node == hir::ExprNode::Name(n) && *final(self)
                    == *old(self),
                ExprNode::Int(i) => res.node == hir::ExprNode::<String>::Int(i as i64) && *final(self)
                    == *old(self),
                ExprNode::Invalid => res.node == hir::ExprNode::<String>::Invalid && *final(self)
                    == *old(self),
                ExprNode::Range(_, _, _) => res.node is App,
                ExprNode::Fun(_, _, _) => res.node is App,
                ExprNode::Lam(_, _) => res.node is Lam,
                ExprNode::App(_, _) => res.node is App,
                ExprNode::Anno(_, _) => res.node is Anno,
                ExprNode::Group(_) => false,
            },
    {
        self.unconc_expr(expr)
    }

    fn unconc_expr(&mut self, expr: Expr) -> (res: hir::Expr<String>)
        ensures
            old(self).msgs@.is_prefix_of(final(self).msgs@),
            final(self).bind_id >= old(self).bind_id,
            res.span == strip_groups(expr).span,
            match strip_groups(expr).node {
                ExprNode::Name(n) => res.node == hir::ExprNode::Name(n) && *final(self)
                    == *old(self),
                ExprNode::Int(i) => res.node == hir::ExprNode::<String>::Int(i as i64) && *final(self)
                    == *old(self),
                ExprNode::Invalid => res.node == hir::ExprNode::<String>::Invalid && *final(self)
                    == *old(self),
                ExprNode::Range(_, _, _) => res.node is App,
                ExprNode::Fun(_, _, _) => res.node is App,
                ExprNode::Lam(_, _) => res.node is Lam,
                ExprNode::App(_, _) => res.node is App,
                ExprNode::Anno(_, _) => res.node is Anno,
                ExprNode::Group(_) => false,
            },
        decreases expr,
    {
        let span = expr.span;
        let node = match expr.node {
            ExprNode::Name(name) => hir::ExprNode::Name(name),
            ExprNode::Int(i) => hir::ExprNode::Int(#[verifier::truncate] (i as i64)),
            ExprNode::Group(inner) => {
                return self.unconc_expr(*inner);
            }
            ExprNode::Range(opspan, lo, hi) => {
                let lo = Box::new(self.unconc_expr(*lo));
                let hi = Box::new(self.unconc_expr(*hi));
                let fun = hir::Expr { node: hir::ExprNode::Name("upto".to_owned()), span: opspan };
                let inner_span = join(lo.span, opspan);
                let fun = hir::Expr {
                    node: hir::ExprNode::App(Box::new(fun), lo),
                    span: inner_span,
                };
                hir::ExprNode::App(Box::new(fun), hi)
            }
            ExprNode::Fun(opspan, t, u) => {
                let t = Box::new(self.unconc_expr(*t));
                let u = Box::new(self.unconc_expr(*u));
                let fun = hir::Expr { node: hir::ExprNode::Name("->".to_owned()), span: opspan };
                let inner_span = join(t.span, opspan);
                let fun = hir::Expr {
                    node: hir::ExprNode::App(Box::new(fun), t),
                    span: inner_span,
                };
                hir::ExprNode::App(Box::new(fun), u)
            }
            ExprNode::Lam(pat, body) => {
                let pat = self.unconc_pat(*pat);
                let body = Box::new(self.unconc_expr(*body));
                hir::ExprNode::Lam(self.fresh_bind_id(), pat, body)
            }
            ExprNode::App(fun, arg) => {
                let fun = Box::new(self.unconc_expr(*fun));
                let arg = Box::new(self.unconc_expr(*arg));
                hir::ExprNode::App(fun, arg)
            }
            ExprNode::Anno(inner, anno) => {
                let inner = Box::new(self.unconc_expr(*inner));
                let anno = self.unconc_type(*anno);
                hir::ExprNode::Anno(inner, anno)
            }
            ExprNode::Invalid => hir::ExprNode::Invalid,
        };
        hir::Expr { node, span }
    }

    fn unconc_pat(&mut self, pat: Expr) -> (res: hir::Pat<String>)
        ensures
            old(self).msgs@.is_prefix_of(final(self).msgs@),
            final(self).bind_id == old(self).bind_id,
            res == spec_unconc_pat(pat).0,
            final(self).msgs@ == old(self).msgs@ + spec_unconc_pat(pat).1,
        decreases pat,
    {
        let span = pat.span;
        let node = match pat.node {
            ExprNode::Name(name) => hir::PatNode::Name(name),
            ExprNode::Group(inner) => {
                return self.unconc_pat(*inner);
            }
            ExprNode::Invalid => hir::PatNode::Invalid,
            _ => {
                self.push_msg(ParseMessage { span, kind: ParseMessageKind::NotAPattern });
                hir::PatNode::Invalid
            }
        };
        hir::Pat { node, span }
    }

    fn unconc_type(&mut self, typ: Expr) -> (res: hir::Type)
        ensures
            old(self).msgs@.is_prefix_of(final(self).msgs@),
            final(self).bind_id >= old(self).bind_id,
            res.span == strip_groups(typ).span,
            match strip_groups(typ).node {
                // a written range type needs two integer literal bounds;
                // exactly one range diagnostic names the offending bound
                ExprNode::Range(_, lo, hi) => match (int_value(*lo), int_value(*hi)) {
                    (Some(l), Some(h)) => res.node == hir::TypeNode::Range(l, h)
                        && final(self).msgs@ == old(self).msgs@,
                    (Some(_), None) => res.node is Invalid
                        && final(self).msgs@.len() > old(self).msgs@.len()
                        && final(self).msgs@.last() == (ParseMessage {
                        span: strip_groups(*hi).span,
                        kind: ParseMessageKind::RangeNotAnInt,
                    }),
                    (None, Some(_)) => res.node is Invalid
                        && final(self).msgs@.len() > old(self).msgs@.len()
                        && final(self).msgs@.last() == (ParseMessage {
                        span: strip_groups(*lo).span,
                        kind: ParseMessageKind::RangeNotAnInt,
                    }),
                    (None, None) => res.node is Invalid
                        && final(self).msgs@.len() > old(self).msgs@.len()
                        && final(self).msgs@.last() == (ParseMessage {
                        span: spec_join(strip_groups(*lo).span, strip_groups(*hi).span),
                        kind: ParseMessageKind::RangeNotAnInt,
                    }),
                },
                ExprNode::Fun(_, _, _) => res.node is Fun,
                ExprNode::Group(_) => false,
                _ => res.node == hir::TypeNode::Invalid && final(self).msgs@ == old(
                    self,
                ).msgs@.push(
                    ParseMessage {
                        span: strip_groups(typ).span,
                        kind: ParseMessageKind::NotAType,
                    },
                ),
            },
        decreases typ,
    {
        let span = typ.span;
        let node = match typ.node {
            ExprNode::Range(_, lo, hi) => {
                let lo = self.unconc_expr(*lo);
                let hi = self.unconc_expr(*hi);
                match (lo.node, hi.node) {
                    (hir::ExprNode::Int(lo), hir::ExprNode::Int(hi)) => hir::TypeNode::Range(
                        lo,
                        hi,
                    ),
                    (hir::ExprNode::Int(_), _) => {
                        self.push_msg(
                            ParseMessage { span: hi.span, kind: ParseMessageKind::RangeNotAnInt },
                        );
                        hir::TypeNode::Invalid
                    }
                    (_, hir::ExprNode::Int(_)) => {
                        self.push_msg(
                            ParseMessage { span: lo.span, kind: ParseMessageKind::RangeNotAnInt },
                        );
                        hir::TypeNode::Invalid
                    }
                    _ => {
                        let both = join(lo.span, hi.span);
                        self.push_msg(
                            ParseMessage { span: both, kind: ParseMessageKind::RangeNotAnInt },
                        );
                        hir::TypeNode::Invalid
                    }
                }
            }
            ExprNode::Fun(_, t, u) => {
                let t = Box::new(self.unconc_type(*t));
                let u = Box::new(self.unconc_type(*u));
                hir::TypeNode::Fun(t, u)
            }
            ExprNode::Group(inner) => {
                return self.unconc_type(*inner);
            }
            _ => {
                self.push_msg(ParseMessage { span, kind: ParseMessageKind::NotAType });
                hir::TypeNode::Invalid
            }
        };
        hir::Type { node, span }
    }

    fn push_msg(&mut self, m: ParseMessage)
        ensures
            final(self).msgs@ == old(self).msgs@.push(m),
            old(self).msgs@.is_prefix_of(final(self).msgs@),
            final(self).bind_id == old(self).bind_id,
    {
        self.msgs.push(m);
        proof {
            crate::unify::lemma_seq_prefix_push(old(self).msgs@, m);
        }
    }

    /// A binder identity no other lambda in this pass has; the counter
    /// saturates at its maximum rather than wrapping.
    fn fresh_bind_id(&mut self) -> (res: hir::BindId)
        ensures
            final(self).msgs@ == old(self).msgs@,
            res == hir::BindId(old(self).bind_id),
            old(self).bind_id < u64::MAX ==> final(self).bind_id == old(self).bind_id + 1,
            old(self).bind_id == u64::MAX ==> final(self).bind_id == old(self).bind_id,
    {
        let id = hir::BindId(self.bind_id);
        if self.bind_id < u64::MAX {
            self.bind_id = self.bind_id + 1;
        }
        id
    }
}

} // verus!
