//! The operators of the language.
use vstd::prelude::*;

verus! {

#[derive(Clone, Copy, Debug, PartialEq, Eq, Structural)]
pub enum Op {
    Add,
    Sub,
    Mul,
    Div,
    FloorDiv,
    Mod,
    Pow,
    BitOr,
    BitXor,
    BitAnd,
    LeftShift,
    RightShift,
    Neg,
    Pos,
    Invert,
    Not,
    Eq,
    Ne,
    Lt,
    Le,
    Gt,
    Ge,
    InplaceAdd,
    InplaceSub,
    InplaceMul,
    InplaceDiv,
    InplaceFloorDiv,
    InplaceMod,
    InplacePow,
    InplaceBitOr,
    InplaceBitXor,
    InplaceBitAnd,
    InplaceLeftShift,
    InplaceRightShift,
}

/// The operator that an augmented assignment falls back to.
pub open spec fn base_op(op: Op) -> Op {
    match op {
        Op::InplaceAdd => Op::Add,
        Op::InplaceSub => Op::Sub,
        Op::InplaceMul => Op::Mul,
        Op::InplaceDiv => Op::Div,
        Op::InplaceFloorDiv => Op::FloorDiv,
        Op::InplaceMod => Op::Mod,
        Op::InplacePow => Op::Pow,
        Op::InplaceBitOr => Op::BitOr,
        Op::InplaceBitXor => Op::BitXor,
        Op::InplaceBitAnd => Op::BitAnd,
        Op::InplaceLeftShift => Op::LeftShift,
        Op::InplaceRightShift => Op::RightShift,
        other => other,
    }
}

/// See [`base_op`].
pub fn base_binary_op(op: Op) -> (r: Op)
    ensures
        r == base_op(op),
{
    match op {
        Op::InplaceAdd => Op::Add,
        Op::InplaceSub => Op::Sub,
        Op::InplaceMul => Op::Mul,
        Op::InplaceDiv => Op::Div,
        Op::InplaceFloorDiv => Op::FloorDiv,
        Op::InplaceMod => Op::Mod,
        Op::InplacePow => Op::Pow,
        Op::InplaceBitOr => Op::BitOr,
        Op::InplaceBitXor => Op::BitXor,
        Op::InplaceBitAnd => Op::BitAnd,
        Op::InplaceLeftShift => Op::LeftShift,
        Op::InplaceRightShift => Op::RightShift,
        other => other,
    }
}

} // verus!
