use vstd::prelude::*;

use crate::interval::AbstractInterval;
use crate::symbolic::{ExprWord, ZEBRASymbolicExpr};
use crate::wordop::{
    const_expr, expr_word, reconstruct_symbolic_word, spec_expr_word,
    spec_reconstruct_symbolic_word,
};

verus! {

/// The control-flow instructions.
#[derive(Debug)]
pub enum ControFLowOp {
    BEQ,
    BGT,
    BGE,
    BGEU,
    BLE,
    BLT,
    BLTU,
    BNE,
    JAL,
    JALR,
    Jumpi,
}

/// The comparison of a branch on its two register words, and whether the
/// branch is taken when the comparison holds (`true`) or when it fails.
pub open spec fn branch_test(op: ControFLowOp, a: ExprWord, b: ExprWord) -> Option<(ZEBRASymbolicExpr, bool)> {
    match op {
        ControFLowOp::BEQ => Some((ZEBRASymbolicExpr::WordEq(a, b), true)),
        ControFLowOp::BNE => Some((ZEBRASymbolicExpr::WordNEq(a, b), true)),
        ControFLowOp::BGE => Some((ZEBRASymbolicExpr::WordSLt(a, b), false)),
        ControFLowOp::BGT => Some((ZEBRASymbolicExpr::WordSLe(a, b), false)),
        ControFLowOp::BLE => Some((ZEBRASymbolicExpr::WordSLe(a, b), true)),
        ControFLowOp::BLT => Some((ZEBRASymbolicExpr::WordSLt(a, b), true)),
        ControFLowOp::BGEU => Some((ZEBRASymbolicExpr::WordLt(a, b), false)),
        ControFLowOp::BLTU => Some((ZEBRASymbolicExpr::WordLt(a, b), true)),
        _ => None,
    }
}

/// `next_pc - (pc + offset)`.
pub open spec fn pc_step(pc: ZEBRASymbolicExpr, next_pc: ZEBRASymbolicExpr, offset: ZEBRASymbolicExpr) -> ZEBRASymbolicExpr {
    ZEBRASymbolicExpr::Sub(
        Box::new(next_pc),
        Box::new(ZEBRASymbolicExpr::Add(Box::new(pc), Box::new(offset))),
    )
}

/// The two guarded constraints of a branch: the jump by `taken` under the
/// outcome that takes it, the step by `fall` under the other.
pub open spec fn branch_constraints(
    cond: ZEBRASymbolicExpr,
    taken_if_nonzero: bool,
    taken: ZEBRASymbolicExpr,
    fall: ZEBRASymbolicExpr,
) -> Seq<ZEBRASymbolicExpr> {
    if taken_if_nonzero {
        seq![
            ZEBRASymbolicExpr::WhenNonZero(Box::new(cond), Box::new(taken)),
            ZEBRASymbolicExpr::WhenZero(Box::new(cond), Box::new(fall)),
        ]
    } else {
        seq![
            ZEBRASymbolicExpr::WhenZero(Box::new(cond), Box::new(taken)),
            ZEBRASymbolicExpr::WhenNonZero(Box::new(cond), Box::new(fall)),
        ]
    }
}

/// The constraints on the next program counter of a control-flow row.
pub open spec fn spec_get_control_flow_constraint(
    pc: ZEBRASymbolicExpr,
    next_pc: ZEBRASymbolicExpr,
    a: [ZEBRASymbolicExpr; 4],
    b: [ZEBRASymbolicExpr; 4],
    c: [ZEBRASymbolicExpr; 4],
    op: ControFLowOp,
    default_step: i128,
) -> Seq<ZEBRASymbolicExpr> {
    let b_expr = spec_reconstruct_symbolic_word(b@, 0);
    let c_expr = spec_reconstruct_symbolic_word(c@, 0);
    match branch_test(op, spec_expr_word(a), spec_expr_word(b)) {
        Some((cond, taken_if_nonzero)) => branch_constraints(
            cond,
            taken_if_nonzero,
            pc_step(pc, next_pc, c_expr),
            pc_step(pc, next_pc, const_expr(default_step as int)),
        ),
        None => match op {
            ControFLowOp::Jumpi => seq![ZEBRASymbolicExpr::Sub(Box::new(next_pc), Box::new(b_expr))],
            ControFLowOp::JAL => seq![pc_step(pc, next_pc, b_expr)],
            _ => seq![
                ZEBRASymbolicExpr::Sub(
                    Box::new(next_pc),
                    Box::new(ZEBRASymbolicExpr::WordAddU(spec_expr_word(b), spec_expr_word(c))),
                ),
            ],
        },
    }
}

fn make_pc_step(pc: &ZEBRASymbolicExpr, next_pc: &ZEBRASymbolicExpr, offset: ZEBRASymbolicExpr) -> (r: ZEBRASymbolicExpr)
    ensures
        r == pc_step(*pc, *next_pc, offset),
{
    ZEBRASymbolicExpr::Sub(
        Box::new(next_pc.deep_copy()),
        Box::new(ZEBRASymbolicExpr::Add(Box::new(pc.deep_copy()), Box::new(offset))),
    )
}

fn make_branch(
    cond: ZEBRASymbolicExpr,
    taken_if_nonzero: bool,
    taken: ZEBRASymbolicExpr,
    fall: ZEBRASymbolicExpr,
) -> (r: Vec<ZEBRASymbolicExpr>)
    ensures
        r@ == branch_constraints(cond, taken_if_nonzero, taken, fall),
{
    let cond2 = cond.deep_copy();
    let v = if taken_if_nonzero {
        vec![
            ZEBRASymbolicExpr::WhenNonZero(Box::new(cond), Box::new(taken)),
            ZEBRASymbolicExpr::WhenZero(Box::new(cond2), Box::new(fall)),
        ]
    } else {
        vec![
            ZEBRASymbolicExpr::WhenZero(Box::new(cond), Box::new(taken)),
            ZEBRASymbolicExpr::WhenNonZero(Box::new(cond2), Box::new(fall)),
        ]
    };
    proof {
        assert(v@ =~= branch_constraints(cond, taken_if_nonzero, taken, fall));
    }
    v
}

/// The constraints that tie the next program counter of a control-flow row
/// to its operands: a branch gives two guarded constraints, a jump one.
pub fn get_control_flow_constraint(
    pc: &ZEBRASymbolicExpr,
    next_pc: &ZEBRASymbolicExpr,
    a: &[ZEBRASymbolicExpr; 4],
    b: &[ZEBRASymbolicExpr; 4],
    c: &[ZEBRASymbolicExpr; 4],
    op: &ControFLowOp,
    default_step: i128,
) -> (r: Vec<ZEBRASymbolicExpr>)
    ensures
        r@ == spec_get_control_flow_constraint(*pc, *next_pc, *a, *b, *c, *op, default_step),
{
    let aw = expr_word(a);
    let bw = expr_word(b);
    let b_expr = reconstruct_symbolic_word(b, 0);
    let c_expr = reconstruct_symbolic_word(c, 0);
    let (cond, taken_if_nonzero) = match op {
        ControFLowOp::BEQ => (ZEBRASymbolicExpr::WordEq(aw, bw), true),
        ControFLowOp::BNE => (ZEBRASymbolicExpr::WordNEq(aw, bw), true),
        ControFLowOp::BGE => (ZEBRASymbolicExpr::WordSLt(aw, bw), false),
        ControFLowOp::BGT => (ZEBRASymbolicExpr::WordSLe(aw, bw), false),
        ControFLowOp::BLE => (ZEBRASymbolicExpr::WordSLe(aw, bw), true),
        ControFLowOp::BLT => (ZEBRASymbolicExpr::WordSLt(aw, bw), true),
        ControFLowOp::BGEU => (ZEBRASymbolicExpr::WordLt(aw, bw), false),
        ControFLowOp::BLTU => (ZEBRASymbolicExpr::WordLt(aw, bw), true),
        ControFLowOp::Jumpi => {
            let v = vec![ZEBRASymbolicExpr::Sub(Box::new(next_pc.deep_copy()), Box::new(b_expr))];
            proof {
                assert(v@ =~= spec_get_control_flow_constraint(*pc, *next_pc, *a, *b, *c, *op, default_step));
            }
            return v;
        },
        ControFLowOp::JAL => {
            let v = vec![make_pc_step(pc, next_pc, b_expr)];
            proof {
                assert(v@ =~= spec_get_control_flow_constraint(*pc, *next_pc, *a, *b, *c, *op, default_step));
            }
            return v;
        },
        ControFLowOp::JALR => {
            let v = vec![
                ZEBRASymbolicExpr::Sub(
                    Box::new(next_pc.deep_copy()),
                    Box::new(ZEBRASymbolicExpr::WordAddU(bw, expr_word(c))),
                ),
            ];
            proof {
                assert(v@ =~= spec_get_control_flow_constraint(*pc, *next_pc, *a, *b, *c, *op, default_step));
            }
            return v;
        },
    };
    let taken = make_pc_step(pc, next_pc, c_expr);
    let fall = make_pc_step(
        pc,
        next_pc,
        ZEBRASymbolicExpr::Constant(AbstractInterval::from_i128(default_step)),
    );
    make_branch(cond, taken_if_nonzero, taken, fall)
}

} // verus!
