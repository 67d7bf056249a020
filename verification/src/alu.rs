use vstd::prelude::*;

use crate::interval::AbstractInterval;
use crate::symbolic::ZEBRASymbolicExpr;
use crate::wordop::{reconstruct_symbolic_word, spec_reconstruct_symbolic_word};

pub use crate::wordop::{
    full_word, word_add, word_div, word_ltu, word_mul, word_mulhs, word_mulhu, word_sdiv, word_slt,
    word_to_unsigned, Word, WORD_BITS, WORD_BOUND,
};

verus! {

/// The operations of the byte-limb ALU.
#[derive(Debug)]
pub enum OpALU {
    Add,
    Sub,
    Mul,
    MulH,
    MulHU,
    And,
    Or,
    Xor,
    Lt,
    SRL,
    MSB,
}

/// The field expression an ALU operation computes from the operand values.
pub open spec fn alu_op_expr(op: OpALU, b: ZEBRASymbolicExpr, c: ZEBRASymbolicExpr) -> ZEBRASymbolicExpr {
    let (bb, cb) = (Box::new(b), Box::new(c));
    match op {
        OpALU::Add => ZEBRASymbolicExpr::Add(bb, cb),
        OpALU::Sub => ZEBRASymbolicExpr::Sub(bb, cb),
        OpALU::Mul => ZEBRASymbolicExpr::MulLo(bb, cb),
        OpALU::MulH => ZEBRASymbolicExpr::MulHiSS(bb, cb),
        OpALU::MulHU => ZEBRASymbolicExpr::MulHiUU(bb, cb),
        OpALU::And => ZEBRASymbolicExpr::And(bb, cb),
        OpALU::Or => ZEBRASymbolicExpr::Or(bb, cb),
        OpALU::Xor => ZEBRASymbolicExpr::Xor(bb, cb),
        OpALU::SRL => ZEBRASymbolicExpr::SRL(bb, cb),
        OpALU::Lt => ZEBRASymbolicExpr::Flip(Box::new(ZEBRASymbolicExpr::Lt(bb, cb))),
        OpALU::MSB => ZEBRASymbolicExpr::Flip(Box::new(ZEBRASymbolicExpr::Msb(bb))),
    }
}

/// The constraint `a - op(b, c)` over the values of the first four byte
/// limbs of each operand.
pub open spec fn spec_get_alu_constraint(
    a: Seq<ZEBRASymbolicExpr>,
    b: Seq<ZEBRASymbolicExpr>,
    c: Seq<ZEBRASymbolicExpr>,
    op: OpALU,
) -> ZEBRASymbolicExpr {
    ZEBRASymbolicExpr::Sub(
        Box::new(spec_reconstruct_symbolic_word(a, 0)),
        Box::new(
            alu_op_expr(
                op,
                spec_reconstruct_symbolic_word(b, 0),
                spec_reconstruct_symbolic_word(c, 0),
            ),
        ),
    )
}

/// Builds the constraint that ties the result limbs of an ALU row to the
/// operation on the values of its operand limbs.
pub fn get_alu_constraint(
    a: &[ZEBRASymbolicExpr],
    b: &[ZEBRASymbolicExpr],
    c: &[ZEBRASymbolicExpr],
    op: &OpALU,
) -> (r: ZEBRASymbolicExpr)
    requires
        a@.len() >= 4,
        b@.len() >= 4,
        c@.len() >= 4,
    ensures
        r == spec_get_alu_constraint(a@, b@, c@, *op),
{
    let a_word = reconstruct_symbolic_word(a, 0);
    let bb = Box::new(reconstruct_symbolic_word(b, 0));
    let cb = Box::new(reconstruct_symbolic_word(c, 0));
    let rhs = match op {
        OpALU::Add => ZEBRASymbolicExpr::Add(bb, cb),
        OpALU::Sub => ZEBRASymbolicExpr::Sub(bb, cb),
        OpALU::Mul => ZEBRASymbolicExpr::MulLo(bb, cb),
        OpALU::MulH => ZEBRASymbolicExpr::MulHiSS(bb, cb),
        OpALU::MulHU => ZEBRASymbolicExpr::MulHiUU(bb, cb),
        OpALU::And => ZEBRASymbolicExpr::And(bb, cb),
        OpALU::Or => ZEBRASymbolicExpr::Or(bb, cb),
        OpALU::Xor => ZEBRASymbolicExpr::Xor(bb, cb),
        OpALU::SRL => ZEBRASymbolicExpr::SRL(bb, cb),
        OpALU::Lt => ZEBRASymbolicExpr::Flip(Box::new(ZEBRASymbolicExpr::Lt(bb, cb))),
        OpALU::MSB => ZEBRASymbolicExpr::Flip(Box::new(ZEBRASymbolicExpr::Msb(bb))),
    };
    ZEBRASymbolicExpr::Sub(Box::new(a_word), Box::new(rhs))
}

/// The interval `[lo, hi]`.
pub fn ai(lo: i64, hi: i64) -> (r: AbstractInterval)
    ensures
        r.lo == lo,
        r.hi == hi,
{
    AbstractInterval { lo: lo as i128, hi: hi as i128 }
}

/// The single value `v`.
pub fn byte(v: i64) -> (r: AbstractInterval)
    ensures
        r.lo == v,
        r.hi == v,
{
    ai(v, v)
}

} // verus!
