//! Low-level program pieces: registers, basic blocks, and the values and
//! branch targets instructions speak of.

use vstd::prelude::*;

use crate::types::NameId;

verus! {

/// A virtual register.
#[derive(Clone, Copy, Debug, PartialEq, Eq, Hash, Structural)]
pub struct Register(pub u64);

/// Identity of a basic block.
#[derive(Clone, Copy, Debug, PartialEq, Eq, Hash, Structural)]
pub struct BlockId(pub u64);

/// A basic block: an optional parameter register, the index range of its
/// instructions, and the index of its closing branch.
#[derive(Clone, Copy, Debug, PartialEq, Eq, Structural)]
pub struct Block {
    pub param: Option<Register>,
    pub insts_lo: usize,
    pub insts_hi: usize,
    pub branch: usize,
}

/// An operand: a constant, a register, or a named item.
#[derive(Clone, Copy, Debug, PartialEq, Eq, Structural)]
pub enum Value {
    Integer(i64),
    Register(Register),
    Name(NameId),
}

/// Where a branch or a call transfers control or writes its result.
#[derive(Clone, Copy, Debug, PartialEq, Eq, Structural)]
pub enum Target {
    Register(Register),
    Name(NameId),
}

} // verus!
