//! The high-level tree produced from the concrete syntax: expressions,
//! patterns and written-down types, each node tagged with its span.

use vstd::prelude::*;

use crate::types::Span;

verus! {

/// Identity of a binder, minted once per lambda.
#[derive(Clone, Copy, Debug, PartialEq, Eq, Hash, Structural)]
pub struct BindId(pub u64);

#[derive(Debug)]
pub struct Expr<Name> {
    pub node: ExprNode<Name>,
    pub span: Span,
}

#[derive(Debug)]
pub enum ExprNode<Name> {
    Name(Name),
    Int(i64),
    Lam(BindId, Pat<Name>, Box<Expr<Name>>),
    App(Box<Expr<Name>>, Box<Expr<Name>>),
    Anno(Box<Expr<Name>>, Type),
    Invalid,
}

#[derive(Debug)]
pub struct Pat<Name> {
    pub node: PatNode<Name>,
    pub span: Span,
}

#[derive(Debug)]
pub enum PatNode<Name> {
    Name(Name),
    Invalid,
}

/// A type as written in the source: a range, a function arrow, or the
/// residue of a malformed annotation.
#[derive(Debug)]
pub struct Type {
    pub node: TypeNode,
    pub span: Span,
}

#[derive(Debug)]
pub enum TypeNode {
    Range(i64, i64),
    Fun(Box<Type>, Box<Type>),
    Invalid,
}

} // verus!
