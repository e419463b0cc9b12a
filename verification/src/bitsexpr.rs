use vstd::prelude::*;

verus! {

/// A binary operator of the bit-expression language.
#[derive(Debug, Clone, Copy, PartialEq, Eq, Structural)]
pub enum BinOp {
    And,
    Or,
    Xor,
    Shl,
    Shr,
}

/// A unary operator of the bit-expression language.
#[derive(Debug, Clone, Copy, PartialEq, Eq, Structural)]
pub enum UnOp {
    Not,
}

/// The precedence level of a binary operator: shifts bind tightest, then
/// conjunction, exclusive or, and disjunction.
pub open spec fn spec_precedence(op: BinOp) -> u8 {
    match op {
        BinOp::Shl | BinOp::Shr => 3,
        BinOp::And => 2,
        BinOp::Xor => 1,
        BinOp::Or => 0,
    }
}

/// Returns the operator's precedence level, as `spec_precedence` describes.
pub fn get_precedence(op: &BinOp) -> (r: u8)
    ensures
        r == spec_precedence(*op),
{
    match op {
        BinOp::Shl | BinOp::Shr => 3,
        BinOp::And => 2,
        BinOp::Xor => 1,
        BinOp::Or => 0,
    }
}

} // verus!
