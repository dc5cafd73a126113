//! Name declaration: walk an expression and record every name a pattern
//! binds, under a scope stack that follows the lambdas.

use vstd::prelude::*;

use crate::hir::{BindId, Expr, ExprNode, Pat, PatNode};
use crate::types::Span;

verus! {

/// The declaration walker: a stack of the lambdas currently entered, and
/// the names declared so far with where they were bound.
#[derive(Debug)]
pub struct Resolver {
    pub scopes: Vec<(Span, BindId)>,
    pub declared: Vec<(String, Span)>,
}

impl Resolver {
    pub fn new() -> (res: Self)
        ensures
            res.scopes@.len() == 0,
            res.declared@.len() == 0,
    {
        Resolver { scopes: Vec::new(), declared: Vec::new() }
    }

    fn enter(&mut self, span: Span, id: BindId)
        ensures
            final(self).scopes@ == old(self).scopes@.push((span, id)),
            final(self).declared == old(self).declared,
    {
        self.scopes.push((span, id));
    }

    fn exit(&mut self)
        requires
            old(self).scopes@.len() > 0,
        ensures
            final(self).scopes@ == old(self).scopes@.drop_last(),
            final(self).declared == old(self).declared,
    {
        let _ = self.scopes.pop();
    }

    fn declare_pat(&mut self, pat: &Pat<String>)
        ensures
            final(self).scopes == old(self).scopes,
            old(self).declared@.is_prefix_of(final(self).declared@),
    {
        match &pat.node {
            PatNode::Name(name) => {
                self.declared.push((name.clone(), pat.span));
                proof {
                    crate::unify::lemma_seq_prefix_push(
                        old(self).declared@,
                        final(self).declared@.last(),
                    );
                }
            }
            PatNode::Invalid => {}
        }
    }

    /// Record every name the expression's patterns bind. Scopes opened for
    /// the walk are closed again: the scope stack comes back as it went in.
    pub fn declare_expr(&mut self, expr: &Expr<String>)
        ensures
            final(self).scopes@ == old(self).scopes@,
            old(self).declared@.is_prefix_of(final(self).declared@),
        decreases *expr,
    {
        match &expr.node {
            ExprNode::Name(_) | ExprNode::Int(_) | ExprNode::Invalid => {}
            ExprNode::Lam(id, param, body) => {
                self.enter(param.span, *id);
                self.declare_pat(param);
                self.declare_expr(body);
                self.exit();
                proof {
                    assert(self.scopes@ =~= old(self).scopes@);
                }
            }
            ExprNode::App(fun, arg) => {
                let ghost d0 = self.declared@;
                self.declare_expr(fun);
                let ghost d1 = self.declared@;
                self.declare_expr(arg);
                proof {
                    crate::unify::lemma_seq_prefix_trans(d0, d1, self.declared@);
                }
            }
            ExprNode::Anno(inner, _) => {
                self.declare_expr(inner);
            }
        }
    }
}

} // verus!
