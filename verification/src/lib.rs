//! Type-inference core for a small language with integer range types:
//! a structural unifier with a write-once substitution store, and a
//! worklist constraint solver that drives it to a fixpoint.

pub mod solve;
pub mod subst;
pub mod unify;
pub mod types;
pub mod hir;
pub mod lir;
pub mod parse;
pub mod render;
pub mod lower;
pub mod resolve;
