use vstd::prelude::*;

verus! {

/// The operation code of a message header (a 4-bit field on the wire).
#[derive(Clone, Copy, Debug, PartialEq, Eq, Structural)]
pub enum Op {
    Query,
    IQuery,
    Status,
    Notify,
    Update,
    Unassigned(u8),
}

/// The operation denoted by a code.
pub open spec fn op_of(value: u8) -> Op {
    match value {
        0x0 => Op::Query,
        0x1 => Op::IQuery,
        0x2 => Op::Status,
        0x4 => Op::Notify,
        0x5 => Op::Update,
        n => Op::Unassigned(n),
    }
}

/// The code of an operation.
pub open spec fn op_code(op: Op) -> u8 {
    match op {
        Op::Query => 0x0,
        Op::IQuery => 0x1,
        Op::Status => 0x2,
        Op::Notify => 0x4,
        Op::Update => 0x5,
        Op::Unassigned(n) => n,
    }
}

/// Whether an operation is the one its own code classifies to.
pub open spec fn op_canonical(op: Op) -> bool {
    op_of(op_code(op)) == op
}

/// Classifies an operation code; every code has exactly one operation.
pub fn unpack(value: u8) -> (r: Op)
    ensures
        r == op_of(value),
{
    match value {
        0x0 => Op::Query,
        0x1 => Op::IQuery,
        0x2 => Op::Status,
        0x4 => Op::Notify,
        0x5 => Op::Update,
        n => Op::Unassigned(n),
    }
}

impl Op {
    /// The code of this operation.
    pub fn code(&self) -> (r: u8)
        ensures
            r == op_code(*self),
    {
        match *self {
            Op::Query => 0x0,
            Op::IQuery => 0x1,
            Op::Status => 0x2,
            Op::Notify => 0x4,
            Op::Update => 0x5,
            Op::Unassigned(n) => n,
        }
    }
}

impl Default for Op {
    fn default() -> (r: Op)
        ensures
            r == Op::Query,
    {
        Op::Query
    }
}

/// Every code classifies to an operation whose code is that same code.
pub proof fn lemma_op_code_of(value: u8)
    ensures
        op_code(op_of(value)) == value,
{
}

} // verus!
