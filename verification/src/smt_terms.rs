use vstd::prelude::*;

use crate::symbolic::{ExprWord, ZEBRASymbolicEntry, ZEBRASymbolicExpr, ZEBRASymbolicVal};
use crate::word_laws::signed_value;
use crate::text::{hex8_i128_text, int_text, nat_text, push_hex8_i128, push_int, push_nat};

verus! {

// ---------------------------------------------------------------------------
// variables
// ---------------------------------------------------------------------------

/// Every variable of `e` is a column of the main trace or a public input:
/// the only ones an SMT query can name.
pub open spec fn smt_vars_ok(e: ZEBRASymbolicExpr) -> bool
    decreases e,
{
    match e {
        ZEBRASymbolicExpr::IsFirstRow | ZEBRASymbolicExpr::IsTransition
        | ZEBRASymbolicExpr::IsLastRow | ZEBRASymbolicExpr::Constant(_) => true,
        ZEBRASymbolicExpr::Variable(v) => smt_entry_ok(v.entry),
        ZEBRASymbolicExpr::WhenNonZero(a, b) | ZEBRASymbolicExpr::WhenZero(a, b)
        | ZEBRASymbolicExpr::Add(a, b) | ZEBRASymbolicExpr::Sub(a, b)
        | ZEBRASymbolicExpr::Mul(a, b) | ZEBRASymbolicExpr::MulLo(a, b)
        | ZEBRASymbolicExpr::MulHiSS(a, b) | ZEBRASymbolicExpr::MulHiUU(a, b)
        | ZEBRASymbolicExpr::And(a, b) | ZEBRASymbolicExpr::Or(a, b)
        | ZEBRASymbolicExpr::Xor(a, b) | ZEBRASymbolicExpr::SRL(a, b)
        | ZEBRASymbolicExpr::SRLCarry(a, b) | ZEBRASymbolicExpr::Lt(a, b) => smt_vars_ok(*a)
            && smt_vars_ok(*b),
        ZEBRASymbolicExpr::Msb(a) | ZEBRASymbolicExpr::Neg(a) | ZEBRASymbolicExpr::Flip(a)
        | ZEBRASymbolicExpr::KoalaBearRange(a) | ZEBRASymbolicExpr::BabyBearRange(a) => smt_vars_ok(
            *a,
        ),
        ZEBRASymbolicExpr::WordAddU(a, b) | ZEBRASymbolicExpr::WordSubU(a, b)
        | ZEBRASymbolicExpr::WordMul(a, b) | ZEBRASymbolicExpr::WordMulhu(a, b)
        | ZEBRASymbolicExpr::WordMulhs(a, b) | ZEBRASymbolicExpr::WordMultl(a, b)
        | ZEBRASymbolicExpr::WordMulth(a, b) | ZEBRASymbolicExpr::WordMultul(a, b)
        | ZEBRASymbolicExpr::WordMultuh(a, b) | ZEBRASymbolicExpr::WordDiv(a, b)
        | ZEBRASymbolicExpr::WordSDiv(a, b) | ZEBRASymbolicExpr::WordLt(a, b)
        | ZEBRASymbolicExpr::WordSLe(a, b) | ZEBRASymbolicExpr::WordSLt(a, b)
        | ZEBRASymbolicExpr::WordAnd(a, b) | ZEBRASymbolicExpr::WordOr(a, b)
        | ZEBRASymbolicExpr::WordXOr(a, b) | ZEBRASymbolicExpr::WordEq(a, b)
        | ZEBRASymbolicExpr::WordNEq(a, b) | ZEBRASymbolicExpr::WordSrl(a, b) => {
            &&& smt_vars_ok(*a.l0)
            &&& smt_vars_ok(*a.l1)
            &&& smt_vars_ok(*a.l2)
            &&& smt_vars_ok(*a.l3)
            &&& smt_vars_ok(*b.l0)
            &&& smt_vars_ok(*b.l1)
            &&& smt_vars_ok(*b.l2)
            &&& smt_vars_ok(*b.l3)
        },
    }
}

/// An entry an SMT query can name: the main trace or the public inputs.
pub open spec fn smt_entry_ok(entry: ZEBRASymbolicEntry) -> bool {
    entry is Main || entry is Public
}

/// A binary operation on two field elements.
pub open spec fn is_binary_op(e: ZEBRASymbolicExpr) -> bool {
    ||| e is WhenNonZero
    ||| e is WhenZero
    ||| e is Add
    ||| e is Sub
    ||| e is Mul
    ||| e is MulLo
    ||| e is MulHiSS
    ||| e is MulHiUU
    ||| e is Lt
    ||| e is And
    ||| e is Or
    ||| e is Xor
    ||| e is SRL
    ||| e is SRLCarry
}

/// A unary operation on a field element.
pub open spec fn is_unary_op(e: ZEBRASymbolicExpr) -> bool {
    e is Flip || e is Neg || e is KoalaBearRange || e is BabyBearRange || e is Msb
}

/// A limb-wise bitwise operation on two words.
pub open spec fn is_word_bitwise_op(e: ZEBRASymbolicExpr) -> bool {
    e is WordAnd || e is WordOr || e is WordXOr
}

/// An operation on two words that is not limb-wise.
pub open spec fn is_word_op(e: ZEBRASymbolicExpr) -> bool {
    ||| e is WordAddU
    ||| e is WordSubU
    ||| e is WordMul
    ||| e is WordMulhu
    ||| e is WordMulhs
    ||| e is WordMultl
    ||| e is WordMulth
    ||| e is WordMultul
    ||| e is WordMultuh
    ||| e is WordDiv
    ||| e is WordSDiv
    ||| e is WordLt
    ||| e is WordSLe
    ||| e is WordSLt
    ||| e is WordEq
    ||| e is WordNEq
    ||| e is WordSrl
}

/// The name of the cell in row `i` and column `j` of the trace.
pub open spec fn trace_name(i: nat, j: nat) -> Seq<char> {
    "trace_"@ + nat_text(i) + "_"@ + nat_text(j)
}

/// The name of public input `j`.
pub open spec fn public_name(j: nat) -> Seq<char> {
    "public_0_"@ + nat_text(j)
}

/// The name of variable `v` read at row `row`: the next row is `row + 1`.
pub open spec fn smt_var_name(v: ZEBRASymbolicVal, row: nat) -> Seq<char> {
    match v.entry {
        ZEBRASymbolicEntry::Main { is_curr } => trace_name(
            if is_curr { row } else { row + 1 },
            v.index as nat,
        ),
        _ => public_name(v.index as nat),
    }
}

/// One step of the little-endian sum of byte limbs in bit-vector arithmetic:
/// `acc + t * 256^k`, where `tail` closes the term with the factor.
pub open spec fn bv_acc(acc: Seq<char>, t: Seq<char>, tail: Seq<char>) -> Seq<char> {
    "(bvadd "@ + acc + " (bvmul "@ + t + tail
}

/// The 32-bit value of four byte limbs, least significant first.
pub open spec fn bv_word_sum(t0: Seq<char>, t1: Seq<char>, t2: Seq<char>, t3: Seq<char>) -> Seq<char> {
    bv_acc(bv_acc(bv_acc(t0, t1, " #x00000100))"@), t2, " #x00010000))"@), t3, " #x01000000))"@)
}

/// The limb `(op x y)` of a limb-wise bitwise operation.
pub open spec fn bv_limb(op: Seq<char>, x: Seq<char>, y: Seq<char>) -> Seq<char> {
    op + x + " "@ + y + ")"@
}

/// The 32-bit value of the limb-wise operation `op` on two words given by
/// the terms of their limbs.
pub open spec fn bv_bitwise_sum(
    op: Seq<char>,
    a0: Seq<char>,
    b0: Seq<char>,
    a1: Seq<char>,
    b1: Seq<char>,
    a2: Seq<char>,
    b2: Seq<char>,
    a3: Seq<char>,
    b3: Seq<char>,
) -> Seq<char> {
    bv_word_sum(bv_limb(op, a0, b0), bv_limb(op, a1, b1), bv_limb(op, a2, b2), bv_limb(op, a3, b3))
}

/// The bit-vector term of `e` at row `row` of `n_rows`; field operations are
/// taken modulo `P` unless `nfo` (no field operation) holds.
pub open spec fn bv_term(e: ZEBRASymbolicExpr, row: nat, n_rows: nat, nfo: bool) -> Seq<char>
    decreases e,
{
    match e {
        ZEBRASymbolicExpr::IsFirstRow => if row == 0 { "#x00000001"@ } else { "#x00000000"@ },
        ZEBRASymbolicExpr::IsTransition => if row + 1 < n_rows { "#x00000001"@ } else { "#x00000000"@ },
        ZEBRASymbolicExpr::IsLastRow => if row + 1 == n_rows { "#x00000001"@ } else { "#x00000000"@ },
        ZEBRASymbolicExpr::Constant(c) => "#x"@ + hex8_i128_text(c.lo as int),
        ZEBRASymbolicExpr::Variable(v) => smt_var_name(v, row),
        ZEBRASymbolicExpr::WhenNonZero(a, b) => "(ite (= "@ + bv_term(*a, row, n_rows, nfo) + " #x00000000) #x00000000 "@ + bv_term(*b, row, n_rows, nfo) + ")"@,
        ZEBRASymbolicExpr::WhenZero(a, b) => "(ite (= "@ + bv_term(*a, row, n_rows, nfo) + " #x00000000) "@ + bv_term(*b, row, n_rows, nfo) + " #x00000000)"@,
        ZEBRASymbolicExpr::Add(a, b) => (if nfo { "(bvadd "@ } else { "(ff_add "@ }) + bv_term(*a, row, n_rows, nfo) + " "@ + bv_term(*b, row, n_rows, nfo) + ")"@,
        ZEBRASymbolicExpr::Sub(a, b) => (if nfo { "(bvsub "@ } else { "(ff_sub "@ }) + bv_term(*a, row, n_rows, nfo) + " "@ + bv_term(*b, row, n_rows, nfo) + ")"@,
        ZEBRASymbolicExpr::Mul(a, b) => (if nfo { "(bvmul "@ } else { "(ff_mul "@ }) + bv_term(*a, row, n_rows, nfo) + " "@ + bv_term(*b, row, n_rows, nfo) + ")"@,
        ZEBRASymbolicExpr::MulLo(a, b) => "((_ extract 31 0) (bvmul "@ + bv_term(*a, row, n_rows, nfo) + " "@ + bv_term(*b, row, n_rows, nfo) + "))"@,
        ZEBRASymbolicExpr::MulHiSS(a, b) => "((_ extract 63 32) (bvmul ((_ sign_extend 32) "@ + bv_term(*a, row, n_rows, nfo) + ") ((_ sign_extend 32) "@ + bv_term(*b, row, n_rows, nfo) + ")))"@,
        ZEBRASymbolicExpr::MulHiUU(a, b) => "((_ extract 63 32) (bvmul ((_ zero_extend 32) "@ + bv_term(*a, row, n_rows, nfo) + ") ((_ zero_extend 32) "@ + bv_term(*b, row, n_rows, nfo) + ")))"@,
        ZEBRASymbolicExpr::Lt(a, b) => "(ite (bvult "@ + bv_term(*a, row, n_rows, nfo) + " "@ + bv_term(*b, row, n_rows, nfo) + ") #x00000001 #x00000000)"@,
        ZEBRASymbolicExpr::And(a, b) => "(bvand "@ + bv_term(*a, row, n_rows, nfo) + " "@ + bv_term(*b, row, n_rows, nfo) + ")"@,
        ZEBRASymbolicExpr::Or(a, b) => "(bvor "@ + bv_term(*a, row, n_rows, nfo) + " "@ + bv_term(*b, row, n_rows, nfo) + ")"@,
        ZEBRASymbolicExpr::Xor(a, b) => "(bvxor "@ + bv_term(*a, row, n_rows, nfo) + " "@ + bv_term(*b, row, n_rows, nfo) + ")"@,
        ZEBRASymbolicExpr::SRL(a, b) => "(bvlshr "@ + bv_term(*a, row, n_rows, nfo) + " "@ + bv_term(*b, row, n_rows, nfo) + ")"@,
        ZEBRASymbolicExpr::SRLCarry(a, b) => "(bvand "@ + bv_term(*a, row, n_rows, nfo) + " (bvsub (bvshl #x00000001 "@ + bv_term(*b, row, n_rows, nfo) + ") #x00000001))"@,
        ZEBRASymbolicExpr::Flip(a) => "(ite (= "@ + bv_term(*a, row, n_rows, nfo) + " #x00000000) #x00000001 #x00000000)"@,
        ZEBRASymbolicExpr::Neg(a) => "(bvneg "@ + bv_term(*a, row, n_rows, nfo) + ")"@,
        ZEBRASymbolicExpr::KoalaBearRange(a) => "(ite (bvult "@ + bv_term(*a, row, n_rows, true) + " #x7f000001) #x00000000 #x00000001)"@,
        ZEBRASymbolicExpr::BabyBearRange(a) => "(ite (bvult "@ + bv_term(*a, row, n_rows, true) + " #x78000001) #x00000000 #x00000001)"@,
        ZEBRASymbolicExpr::Msb(a) => "((_ zero_extend 31) ((_ extract 31 31) "@ + bv_term(*a, row, n_rows, nfo) + "))"@,
        ZEBRASymbolicExpr::WordAddU(a, b) => "(bvadd "@ + bv_word_sum(bv_term(*a.l0, row, n_rows, nfo), bv_term(*a.l1, row, n_rows, nfo), bv_term(*a.l2, row, n_rows, nfo), bv_term(*a.l3, row, n_rows, nfo)) + " "@ + bv_word_sum(bv_term(*b.l0, row, n_rows, nfo), bv_term(*b.l1, row, n_rows, nfo), bv_term(*b.l2, row, n_rows, nfo), bv_term(*b.l3, row, n_rows, nfo)) + ")"@,
        ZEBRASymbolicExpr::WordSubU(a, b) => "(bvsub "@ + bv_word_sum(bv_term(*a.l0, row, n_rows, nfo), bv_term(*a.l1, row, n_rows, nfo), bv_term(*a.l2, row, n_rows, nfo), bv_term(*a.l3, row, n_rows, nfo)) + " "@ + bv_word_sum(bv_term(*b.l0, row, n_rows, nfo), bv_term(*b.l1, row, n_rows, nfo), bv_term(*b.l2, row, n_rows, nfo), bv_term(*b.l3, row, n_rows, nfo)) + ")"@,
        ZEBRASymbolicExpr::WordMulhs(a, b) => "((_ extract 63 32) (bvmul ((_ sign_extend 32) "@ + bv_word_sum(bv_term(*a.l0, row, n_rows, nfo), bv_term(*a.l1, row, n_rows, nfo), bv_term(*a.l2, row, n_rows, nfo), bv_term(*a.l3, row, n_rows, nfo)) + ") ((_ sign_extend 32) "@ + bv_word_sum(bv_term(*b.l0, row, n_rows, nfo), bv_term(*b.l1, row, n_rows, nfo), bv_term(*b.l2, row, n_rows, nfo), bv_term(*b.l3, row, n_rows, nfo)) + ")))"@,
        ZEBRASymbolicExpr::WordMulhu(a, b) => "((_ extract 63 32) (bvmul ((_ zero_extend 32) "@ + bv_word_sum(bv_term(*a.l0, row, n_rows, nfo), bv_term(*a.l1, row, n_rows, nfo), bv_term(*a.l2, row, n_rows, nfo), bv_term(*a.l3, row, n_rows, nfo)) + ") ((_ zero_extend 32) "@ + bv_word_sum(bv_term(*b.l0, row, n_rows, nfo), bv_term(*b.l1, row, n_rows, nfo), bv_term(*b.l2, row, n_rows, nfo), bv_term(*b.l3, row, n_rows, nfo)) + ")))"@,
        ZEBRASymbolicExpr::WordMultl(a, b) => "(bvmul "@ + bv_word_sum(bv_term(*a.l0, row, n_rows, nfo), bv_term(*a.l1, row, n_rows, nfo), bv_term(*a.l2, row, n_rows, nfo), bv_term(*a.l3, row, n_rows, nfo)) + " "@ + bv_word_sum(bv_term(*b.l0, row, n_rows, nfo), bv_term(*b.l1, row, n_rows, nfo), bv_term(*b.l2, row, n_rows, nfo), bv_term(*b.l3, row, n_rows, nfo)) + ")"@,
        ZEBRASymbolicExpr::WordMulth(a, b) => "((_ extract 63 32) (bvmul ((_ sign_extend 32) "@ + bv_word_sum(bv_term(*a.l0, row, n_rows, nfo), bv_term(*a.l1, row, n_rows, nfo), bv_term(*a.l2, row, n_rows, nfo), bv_term(*a.l3, row, n_rows, nfo)) + ") ((_ sign_extend 32) "@ + bv_word_sum(bv_term(*b.l0, row, n_rows, nfo), bv_term(*b.l1, row, n_rows, nfo), bv_term(*b.l2, row, n_rows, nfo), bv_term(*b.l3, row, n_rows, nfo)) + ")))"@,
        ZEBRASymbolicExpr::WordMultul(a, b) => "(bvmul "@ + bv_word_sum(bv_term(*a.l0, row, n_rows, nfo), bv_term(*a.l1, row, n_rows, nfo), bv_term(*a.l2, row, n_rows, nfo), bv_term(*a.l3, row, n_rows, nfo)) + " "@ + bv_word_sum(bv_term(*b.l0, row, n_rows, nfo), bv_term(*b.l1, row, n_rows, nfo), bv_term(*b.l2, row, n_rows, nfo), bv_term(*b.l3, row, n_rows, nfo)) + ")"@,
        ZEBRASymbolicExpr::WordMultuh(a, b) => "((_ extract 63 32) (bvmul ((_ zero_extend 32) "@ + bv_word_sum(bv_term(*a.l0, row, n_rows, nfo), bv_term(*a.l1, row, n_rows, nfo), bv_term(*a.l2, row, n_rows, nfo), bv_term(*a.l3, row, n_rows, nfo)) + ") ((_ zero_extend 32) "@ + bv_word_sum(bv_term(*b.l0, row, n_rows, nfo), bv_term(*b.l1, row, n_rows, nfo), bv_term(*b.l2, row, n_rows, nfo), bv_term(*b.l3, row, n_rows, nfo)) + ")))"@,
        ZEBRASymbolicExpr::WordMul(a, b) => "(bvmul "@ + bv_word_sum(bv_term(*a.l0, row, n_rows, nfo), bv_term(*a.l1, row, n_rows, nfo), bv_term(*a.l2, row, n_rows, nfo), bv_term(*a.l3, row, n_rows, nfo)) + " "@ + bv_word_sum(bv_term(*b.l0, row, n_rows, nfo), bv_term(*b.l1, row, n_rows, nfo), bv_term(*b.l2, row, n_rows, nfo), bv_term(*b.l3, row, n_rows, nfo)) + ")"@,
        ZEBRASymbolicExpr::WordSrl(a, b) => "(bvlshr "@ + bv_word_sum(bv_term(*a.l0, row, n_rows, nfo), bv_term(*a.l1, row, n_rows, nfo), bv_term(*a.l2, row, n_rows, nfo), bv_term(*a.l3, row, n_rows, nfo)) + " "@ + bv_word_sum(bv_term(*b.l0, row, n_rows, nfo), bv_term(*b.l1, row, n_rows, nfo), bv_term(*b.l2, row, n_rows, nfo), bv_term(*b.l3, row, n_rows, nfo)) + ")"@,
        ZEBRASymbolicExpr::WordDiv(a, b) => "(bvudiv "@ + bv_word_sum(bv_term(*a.l0, row, n_rows, nfo), bv_term(*a.l1, row, n_rows, nfo), bv_term(*a.l2, row, n_rows, nfo), bv_term(*a.l3, row, n_rows, nfo)) + " "@ + bv_word_sum(bv_term(*b.l0, row, n_rows, nfo), bv_term(*b.l1, row, n_rows, nfo), bv_term(*b.l2, row, n_rows, nfo), bv_term(*b.l3, row, n_rows, nfo)) + ")"@,
        ZEBRASymbolicExpr::WordSDiv(a, b) => "(bvsdiv "@ + bv_word_sum(bv_term(*a.l0, row, n_rows, nfo), bv_term(*a.l1, row, n_rows, nfo), bv_term(*a.l2, row, n_rows, nfo), bv_term(*a.l3, row, n_rows, nfo)) + " "@ + bv_word_sum(bv_term(*b.l0, row, n_rows, nfo), bv_term(*b.l1, row, n_rows, nfo), bv_term(*b.l2, row, n_rows, nfo), bv_term(*b.l3, row, n_rows, nfo)) + ")"@,
        ZEBRASymbolicExpr::WordLt(a, b) => "(ite (bvult "@ + bv_word_sum(bv_term(*a.l0, row, n_rows, nfo), bv_term(*a.l1, row, n_rows, nfo), bv_term(*a.l2, row, n_rows, nfo), bv_term(*a.l3, row, n_rows, nfo)) + " "@ + bv_word_sum(bv_term(*b.l0, row, n_rows, nfo), bv_term(*b.l1, row, n_rows, nfo), bv_term(*b.l2, row, n_rows, nfo), bv_term(*b.l3, row, n_rows, nfo)) + ") #x00000001 #x00000000)"@,
        ZEBRASymbolicExpr::WordSLt(a, b) => "(ite (bvslt "@ + bv_word_sum(bv_term(*a.l0, row, n_rows, nfo), bv_term(*a.l1, row, n_rows, nfo), bv_term(*a.l2, row, n_rows, nfo), bv_term(*a.l3, row, n_rows, nfo)) + " "@ + bv_word_sum(bv_term(*b.l0, row, n_rows, nfo), bv_term(*b.l1, row, n_rows, nfo), bv_term(*b.l2, row, n_rows, nfo), bv_term(*b.l3, row, n_rows, nfo)) + ") #x00000001 #x00000000)"@,
        ZEBRASymbolicExpr::WordSLe(a, b) => "(ite (bvsle "@ + bv_word_sum(bv_term(*a.l0, row, n_rows, nfo), bv_term(*a.l1, row, n_rows, nfo), bv_term(*a.l2, row, n_rows, nfo), bv_term(*a.l3, row, n_rows, nfo)) + " "@ + bv_word_sum(bv_term(*b.l0, row, n_rows, nfo), bv_term(*b.l1, row, n_rows, nfo), bv_term(*b.l2, row, n_rows, nfo), bv_term(*b.l3, row, n_rows, nfo)) + ") #x00000001 #x00000000)"@,
        ZEBRASymbolicExpr::WordEq(a, b) => "(ite (= "@ + bv_word_sum(bv_term(*a.l0, row, n_rows, nfo), bv_term(*a.l1, row, n_rows, nfo), bv_term(*a.l2, row, n_rows, nfo), bv_term(*a.l3, row, n_rows, nfo)) + " "@ + bv_word_sum(bv_term(*b.l0, row, n_rows, nfo), bv_term(*b.l1, row, n_rows, nfo), bv_term(*b.l2, row, n_rows, nfo), bv_term(*b.l3, row, n_rows, nfo)) + ") #x00000001 #x00000000)"@,
        ZEBRASymbolicExpr::WordNEq(a, b) => "(ite (= "@ + bv_word_sum(bv_term(*a.l0, row, n_rows, nfo), bv_term(*a.l1, row, n_rows, nfo), bv_term(*a.l2, row, n_rows, nfo), bv_term(*a.l3, row, n_rows, nfo)) + " "@ + bv_word_sum(bv_term(*b.l0, row, n_rows, nfo), bv_term(*b.l1, row, n_rows, nfo), bv_term(*b.l2, row, n_rows, nfo), bv_term(*b.l3, row, n_rows, nfo)) + ") #x00000000 #x00000001)"@,
        ZEBRASymbolicExpr::WordAnd(a, b) => bv_bitwise_sum("(bvand "@, bv_term(*a.l0, row, n_rows, nfo), bv_term(*b.l0, row, n_rows, nfo), bv_term(*a.l1, row, n_rows, nfo), bv_term(*b.l1, row, n_rows, nfo), bv_term(*a.l2, row, n_rows, nfo), bv_term(*b.l2, row, n_rows, nfo), bv_term(*a.l3, row, n_rows, nfo), bv_term(*b.l3, row, n_rows, nfo)),
        ZEBRASymbolicExpr::WordOr(a, b) => bv_bitwise_sum("(bvor "@, bv_term(*a.l0, row, n_rows, nfo), bv_term(*b.l0, row, n_rows, nfo), bv_term(*a.l1, row, n_rows, nfo), bv_term(*b.l1, row, n_rows, nfo), bv_term(*a.l2, row, n_rows, nfo), bv_term(*b.l2, row, n_rows, nfo), bv_term(*a.l3, row, n_rows, nfo), bv_term(*b.l3, row, n_rows, nfo)),
        ZEBRASymbolicExpr::WordXOr(a, b) => bv_bitwise_sum("(bvxor "@, bv_term(*a.l0, row, n_rows, nfo), bv_term(*b.l0, row, n_rows, nfo), bv_term(*a.l1, row, n_rows, nfo), bv_term(*b.l1, row, n_rows, nfo), bv_term(*a.l2, row, n_rows, nfo), bv_term(*b.l2, row, n_rows, nfo), bv_term(*a.l3, row, n_rows, nfo), bv_term(*b.l3, row, n_rows, nfo)),
    }
}

/// `p + a + m + b + s`.
pub(crate) fn wrap2(p: &str, a: String, m: &str, b: String, s: &str) -> (r: String)
    ensures
        r@ == p@ + a@ + m@ + b@ + s@,
{
    let mut r = String::from_str(p);
    r.append(a.as_str());
    r.append(m);
    r.append(b.as_str());
    r.append(s);
    r
}

/// `p + a + s`.
pub(crate) fn wrap1(p: &str, a: String, s: &str) -> (r: String)
    ensures
        r@ == p@ + a@ + s@,
{
    let mut r = String::from_str(p);
    r.append(a.as_str());
    r.append(s);
    r
}

/// The decimal text of `n`.
pub fn nat_string(n: u128) -> (r: String)
    ensures
        r@ == nat_text(n as nat),
{
    let mut r = String::new();
    push_nat(&mut r, n);
    assert(r@ =~= nat_text(n as nat));
    r
}

/// The name of the trace cell `(i, j)`.
pub fn trace_name_string(i: usize, j: usize) -> (r: String)
    ensures
        r@ == trace_name(i as nat, j as nat),
{
    let mut r = String::from_str("trace_");
    push_nat(&mut r, i as u128);
    r.append("_");
    push_nat(&mut r, j as u128);
    r
}

/// The name of public input `j`.
pub fn public_name_string(j: usize) -> (r: String)
    ensures
        r@ == public_name(j as nat),
{
    let mut r = String::from_str("public_0_");
    push_nat(&mut r, j as u128);
    r
}

/// The name of variable `v` read at row `row`.
fn var_name_string(v: ZEBRASymbolicVal, row: usize) -> (r: String)
    requires
        smt_entry_ok(v.entry),
        row < usize::MAX,
    ensures
        r@ == smt_var_name(v, row as nat),
{
    match v.entry {
        ZEBRASymbolicEntry::Main { is_curr } => {
            if is_curr {
                trace_name_string(row, v.index)
            } else {
                trace_name_string(row + 1, v.index)
            }
        },
        _ => public_name_string(v.index),
    }
}

/// The 32-bit value of four byte limbs, least significant first.
fn bv_word_sum_string(t0: String, t1: String, t2: String, t3: String) -> (r: String)
    ensures
        r@ == bv_word_sum(t0@, t1@, t2@, t3@),
{
    let a1 = wrap2("(bvadd ", t0, " (bvmul ", t1, " #x00000100))");
    let a2 = wrap2("(bvadd ", a1, " (bvmul ", t2, " #x00010000))");
    wrap2("(bvadd ", a2, " (bvmul ", t3, " #x01000000))")
}

/// The 32-bit value of the limb-wise operation `op` on the limbs' terms.
fn bv_bitwise_sum_string(
    op: &str,
    a0: String,
    b0: String,
    a1: String,
    b1: String,
    a2: String,
    b2: String,
    a3: String,
    b3: String,
) -> (r: String)
    ensures
        r@ == bv_bitwise_sum(op@, a0@, b0@, a1@, b1@, a2@, b2@, a3@, b3@),
{
    let t0 = wrap2(op, a0, " ", b0, ")");
    let t1 = wrap2(op, a1, " ", b1, ")");
    let t2 = wrap2(op, a2, " ", b2, ")");
    let t3 = wrap2(op, a3, " ", b3, ")");
    bv_word_sum_string(t0, t1, t2, t3)
}

/// The bit-vector term of `e` at row `row` of `n_rows`.
pub fn bv_term_string(e: &ZEBRASymbolicExpr, row: usize, n_rows: usize, nfo: bool) -> (r: String)
    requires
        smt_vars_ok(*e),
        row < n_rows,
    ensures
        r@ == bv_term(*e, row as nat, n_rows as nat, nfo),
    decreases e, 1nat,
{
    match e {
        ZEBRASymbolicExpr::IsFirstRow => {
            if row == 0 { String::from_str("#x00000001") } else { String::from_str("#x00000000") }
        },
        ZEBRASymbolicExpr::IsTransition => {
            if row + 1 < n_rows { String::from_str("#x00000001") } else { String::from_str("#x00000000") }
        },
        ZEBRASymbolicExpr::IsLastRow => {
            if row + 1 == n_rows { String::from_str("#x00000001") } else { String::from_str("#x00000000") }
        },
        ZEBRASymbolicExpr::Constant(c) => {
            let mut r = String::from_str("#x");
            push_hex8_i128(&mut r, c.lo);
            r
        },
        ZEBRASymbolicExpr::Variable(v) => var_name_string(*v, row),
        ZEBRASymbolicExpr::WhenNonZero(..) | ZEBRASymbolicExpr::WhenZero(..)
        | ZEBRASymbolicExpr::Add(..) | ZEBRASymbolicExpr::Sub(..) | ZEBRASymbolicExpr::Mul(..)
        | ZEBRASymbolicExpr::MulLo(..) | ZEBRASymbolicExpr::MulHiSS(..)
        | ZEBRASymbolicExpr::MulHiUU(..) | ZEBRASymbolicExpr::Lt(..) | ZEBRASymbolicExpr::And(..)
        | ZEBRASymbolicExpr::Or(..) | ZEBRASymbolicExpr::Xor(..) | ZEBRASymbolicExpr::SRL(..)
        | ZEBRASymbolicExpr::SRLCarry(..) => bv_binary_string(e, row, n_rows, nfo),
        ZEBRASymbolicExpr::Flip(..) | ZEBRASymbolicExpr::Neg(..)
        | ZEBRASymbolicExpr::KoalaBearRange(..) | ZEBRASymbolicExpr::BabyBearRange(..)
        | ZEBRASymbolicExpr::Msb(..) => bv_unary_string(e, row, n_rows, nfo),
        ZEBRASymbolicExpr::WordAnd(..) | ZEBRASymbolicExpr::WordOr(..)
        | ZEBRASymbolicExpr::WordXOr(..) => bv_word_bitwise_string(e, row, n_rows, nfo),
        _ => bv_word_op_string(e, row, n_rows, nfo),
    }
}

/// The 32-bit value of a word's limbs.
fn bv_word_string(w: &ExprWord, row: usize, n_rows: usize, nfo: bool) -> (r: String)
    requires
        smt_vars_ok(*w.l0),
        smt_vars_ok(*w.l1),
        smt_vars_ok(*w.l2),
        smt_vars_ok(*w.l3),
        row < n_rows,
    ensures
        r@ == bv_word_sum(
            bv_term(*w.l0, row as nat, n_rows as nat, nfo),
            bv_term(*w.l1, row as nat, n_rows as nat, nfo),
            bv_term(*w.l2, row as nat, n_rows as nat, nfo),
            bv_term(*w.l3, row as nat, n_rows as nat, nfo),
        ),
    decreases w, 0nat,
{
    let t0 = bv_term_string(&w.l0, row, n_rows, nfo);
    let t1 = bv_term_string(&w.l1, row, n_rows, nfo);
    let t2 = bv_term_string(&w.l2, row, n_rows, nfo);
    let t3 = bv_term_string(&w.l3, row, n_rows, nfo);
    bv_word_sum_string(t0, t1, t2, t3)
}

/// The bit-vector term of a binary operation.
fn bv_binary_string(e: &ZEBRASymbolicExpr, row: usize, n_rows: usize, nfo: bool) -> (r: String)
    requires
        smt_vars_ok(*e),
        row < n_rows,
        is_binary_op(*e),
    ensures
        r@ == bv_term(*e, row as nat, n_rows as nat, nfo),
    decreases e, 0nat,
{
    match e {
        ZEBRASymbolicExpr::WhenNonZero(a, b) => wrap2("(ite (= ", bv_term_string(a, row, n_rows, nfo), " #x00000000) #x00000000 ", bv_term_string(b, row, n_rows, nfo), ")"),
        ZEBRASymbolicExpr::WhenZero(a, b) => wrap2("(ite (= ", bv_term_string(a, row, n_rows, nfo), " #x00000000) ", bv_term_string(b, row, n_rows, nfo), " #x00000000)"),
        ZEBRASymbolicExpr::Add(a, b) => {
            let p = if nfo { "(bvadd " } else { "(ff_add " };
            wrap2(p, bv_term_string(a, row, n_rows, nfo), " ", bv_term_string(b, row, n_rows, nfo), ")")
        },
        ZEBRASymbolicExpr::Sub(a, b) => {
            let p = if nfo { "(bvsub " } else { "(ff_sub " };
            wrap2(p, bv_term_string(a, row, n_rows, nfo), " ", bv_term_string(b, row, n_rows, nfo), ")")
        },
        ZEBRASymbolicExpr::Mul(a, b) => {
            let p = if nfo { "(bvmul " } else { "(ff_mul " };
            wrap2(p, bv_term_string(a, row, n_rows, nfo), " ", bv_term_string(b, row, n_rows, nfo), ")")
        },
        ZEBRASymbolicExpr::MulLo(a, b) => wrap2("((_ extract 31 0) (bvmul ", bv_term_string(a, row, n_rows, nfo), " ", bv_term_string(b, row, n_rows, nfo), "))"),
        ZEBRASymbolicExpr::MulHiSS(a, b) => wrap2("((_ extract 63 32) (bvmul ((_ sign_extend 32) ", bv_term_string(a, row, n_rows, nfo), ") ((_ sign_extend 32) ", bv_term_string(b, row, n_rows, nfo), ")))"),
        ZEBRASymbolicExpr::MulHiUU(a, b) => wrap2("((_ extract 63 32) (bvmul ((_ zero_extend 32) ", bv_term_string(a, row, n_rows, nfo), ") ((_ zero_extend 32) ", bv_term_string(b, row, n_rows, nfo), ")))"),
        ZEBRASymbolicExpr::Lt(a, b) => wrap2("(ite (bvult ", bv_term_string(a, row, n_rows, nfo), " ", bv_term_string(b, row, n_rows, nfo), ") #x00000001 #x00000000)"),
        ZEBRASymbolicExpr::And(a, b) => wrap2("(bvand ", bv_term_string(a, row, n_rows, nfo), " ", bv_term_string(b, row, n_rows, nfo), ")"),
        ZEBRASymbolicExpr::Or(a, b) => wrap2("(bvor ", bv_term_string(a, row, n_rows, nfo), " ", bv_term_string(b, row, n_rows, nfo), ")"),
        ZEBRASymbolicExpr::Xor(a, b) => wrap2("(bvxor ", bv_term_string(a, row, n_rows, nfo), " ", bv_term_string(b, row, n_rows, nfo), ")"),
        ZEBRASymbolicExpr::SRL(a, b) => wrap2("(bvlshr ", bv_term_string(a, row, n_rows, nfo), " ", bv_term_string(b, row, n_rows, nfo), ")"),
        ZEBRASymbolicExpr::SRLCarry(a, b) => wrap2("(bvand ", bv_term_string(a, row, n_rows, nfo), " (bvsub (bvshl #x00000001 ", bv_term_string(b, row, n_rows, nfo), ") #x00000001))"),
        _ => String::new(),
    }
}

/// The bit-vector term of a unary operation.
fn bv_unary_string(e: &ZEBRASymbolicExpr, row: usize, n_rows: usize, nfo: bool) -> (r: String)
    requires
        smt_vars_ok(*e),
        row < n_rows,
        is_unary_op(*e),
    ensures
        r@ == bv_term(*e, row as nat, n_rows as nat, nfo),
    decreases e, 0nat,
{
    match e {
        ZEBRASymbolicExpr::Flip(a) => wrap1("(ite (= ", bv_term_string(a, row, n_rows, nfo), " #x00000000) #x00000001 #x00000000)"),
        ZEBRASymbolicExpr::Neg(a) => wrap1("(bvneg ", bv_term_string(a, row, n_rows, nfo), ")"),
        ZEBRASymbolicExpr::KoalaBearRange(a) => wrap1("(ite (bvult ", bv_term_string(a, row, n_rows, true), " #x7f000001) #x00000000 #x00000001)"),
        ZEBRASymbolicExpr::BabyBearRange(a) => wrap1("(ite (bvult ", bv_term_string(a, row, n_rows, true), " #x78000001) #x00000000 #x00000001)"),
        ZEBRASymbolicExpr::Msb(a) => wrap1("((_ zero_extend 31) ((_ extract 31 31) ", bv_term_string(a, row, n_rows, nfo), "))"),
        _ => String::new(),
    }
}

/// The bit-vector term of an operation on two words.
fn bv_word_op_string(e: &ZEBRASymbolicExpr, row: usize, n_rows: usize, nfo: bool) -> (r: String)
    requires
        smt_vars_ok(*e),
        row < n_rows,
        is_word_op(*e),
    ensures
        r@ == bv_term(*e, row as nat, n_rows as nat, nfo),
    decreases e, 0nat,
{
    match e {
        ZEBRASymbolicExpr::WordAddU(a, b) => wrap2("(bvadd ", bv_word_string(a, row, n_rows, nfo), " ", bv_word_string(b, row, n_rows, nfo), ")"),
        ZEBRASymbolicExpr::WordSubU(a, b) => wrap2("(bvsub ", bv_word_string(a, row, n_rows, nfo), " ", bv_word_string(b, row, n_rows, nfo), ")"),
        ZEBRASymbolicExpr::WordMulhs(a, b) => wrap2("((_ extract 63 32) (bvmul ((_ sign_extend 32) ", bv_word_string(a, row, n_rows, nfo), ") ((_ sign_extend 32) ", bv_word_string(b, row, n_rows, nfo), ")))"),
        ZEBRASymbolicExpr::WordMulhu(a, b) => wrap2("((_ extract 63 32) (bvmul ((_ zero_extend 32) ", bv_word_string(a, row, n_rows, nfo), ") ((_ zero_extend 32) ", bv_word_string(b, row, n_rows, nfo), ")))"),
        ZEBRASymbolicExpr::WordMultl(a, b) => wrap2("(bvmul ", bv_word_string(a, row, n_rows, nfo), " ", bv_word_string(b, row, n_rows, nfo), ")"),
        ZEBRASymbolicExpr::WordMulth(a, b) => wrap2("((_ extract 63 32) (bvmul ((_ sign_extend 32) ", bv_word_string(a, row, n_rows, nfo), ") ((_ sign_extend 32) ", bv_word_string(b, row, n_rows, nfo), ")))"),
        ZEBRASymbolicExpr::WordMultul(a, b) => wrap2("(bvmul ", bv_word_string(a, row, n_rows, nfo), " ", bv_word_string(b, row, n_rows, nfo), ")"),
        ZEBRASymbolicExpr::WordMultuh(a, b) => wrap2("((_ extract 63 32) (bvmul ((_ zero_extend 32) ", bv_word_string(a, row, n_rows, nfo), ") ((_ zero_extend 32) ", bv_word_string(b, row, n_rows, nfo), ")))"),
        ZEBRASymbolicExpr::WordMul(a, b) => wrap2("(bvmul ", bv_word_string(a, row, n_rows, nfo), " ", bv_word_string(b, row, n_rows, nfo), ")"),
        ZEBRASymbolicExpr::WordSrl(a, b) => wrap2("(bvlshr ", bv_word_string(a, row, n_rows, nfo), " ", bv_word_string(b, row, n_rows, nfo), ")"),
        ZEBRASymbolicExpr::WordDiv(a, b) => wrap2("(bvudiv ", bv_word_string(a, row, n_rows, nfo), " ", bv_word_string(b, row, n_rows, nfo), ")"),
        ZEBRASymbolicExpr::WordSDiv(a, b) => wrap2("(bvsdiv ", bv_word_string(a, row, n_rows, nfo), " ", bv_word_string(b, row, n_rows, nfo), ")"),
        ZEBRASymbolicExpr::WordLt(a, b) => wrap2("(ite (bvult ", bv_word_string(a, row, n_rows, nfo), " ", bv_word_string(b, row, n_rows, nfo), ") #x00000001 #x00000000)"),
        ZEBRASymbolicExpr::WordSLt(a, b) => wrap2("(ite (bvslt ", bv_word_string(a, row, n_rows, nfo), " ", bv_word_string(b, row, n_rows, nfo), ") #x00000001 #x00000000)"),
        ZEBRASymbolicExpr::WordSLe(a, b) => wrap2("(ite (bvsle ", bv_word_string(a, row, n_rows, nfo), " ", bv_word_string(b, row, n_rows, nfo), ") #x00000001 #x00000000)"),
        ZEBRASymbolicExpr::WordEq(a, b) => wrap2("(ite (= ", bv_word_string(a, row, n_rows, nfo), " ", bv_word_string(b, row, n_rows, nfo), ") #x00000001 #x00000000)"),
        ZEBRASymbolicExpr::WordNEq(a, b) => wrap2("(ite (= ", bv_word_string(a, row, n_rows, nfo), " ", bv_word_string(b, row, n_rows, nfo), ") #x00000000 #x00000001)"),
        _ => String::new(),
    }
}

/// The terms of a word's four limbs.
fn bv_limb_terms(w: &ExprWord, row: usize, n_rows: usize, nfo: bool) -> (r: (String, String, String, String))
    requires
        smt_vars_ok(*w.l0),
        smt_vars_ok(*w.l1),
        smt_vars_ok(*w.l2),
        smt_vars_ok(*w.l3),
        row < n_rows,
    ensures
        r.0@ == bv_term(*w.l0, row as nat, n_rows as nat, nfo),
        r.1@ == bv_term(*w.l1, row as nat, n_rows as nat, nfo),
        r.2@ == bv_term(*w.l2, row as nat, n_rows as nat, nfo),
        r.3@ == bv_term(*w.l3, row as nat, n_rows as nat, nfo),
    decreases w, 0nat,
{
    let t0 = bv_term_string(&w.l0, row, n_rows, nfo);
    let t1 = bv_term_string(&w.l1, row, n_rows, nfo);
    let t2 = bv_term_string(&w.l2, row, n_rows, nfo);
    let t3 = bv_term_string(&w.l3, row, n_rows, nfo);
    (t0, t1, t2, t3)
}

/// The bit-vector term of a limb-wise bitwise operation on two words.
fn bv_word_bitwise_string(e: &ZEBRASymbolicExpr, row: usize, n_rows: usize, nfo: bool) -> (r: String)
    requires
        smt_vars_ok(*e),
        row < n_rows,
        is_word_bitwise_op(*e),
    ensures
        r@ == bv_term(*e, row as nat, n_rows as nat, nfo),
    decreases e, 0nat,
{
    match e {
        ZEBRASymbolicExpr::WordAnd(a, b) => {
            let (a0, a1, a2, a3) = bv_limb_terms(a, row, n_rows, nfo);
            let (b0, b1, b2, b3) = bv_limb_terms(b, row, n_rows, nfo);
            bv_bitwise_sum_string("(bvand ", a0, b0, a1, b1, a2, b2, a3, b3)
        },
        ZEBRASymbolicExpr::WordOr(a, b) => {
            let (a0, a1, a2, a3) = bv_limb_terms(a, row, n_rows, nfo);
            let (b0, b1, b2, b3) = bv_limb_terms(b, row, n_rows, nfo);
            bv_bitwise_sum_string("(bvor ", a0, b0, a1, b1, a2, b2, a3, b3)
        },
        ZEBRASymbolicExpr::WordXOr(a, b) => {
            let (a0, a1, a2, a3) = bv_limb_terms(a, row, n_rows, nfo);
            let (b0, b1, b2, b3) = bv_limb_terms(b, row, n_rows, nfo);
            bv_bitwise_sum_string("(bvxor ", a0, b0, a1, b1, a2, b2, a3, b3)
        },
        _ => String::new(),
    }
}

// ---------------------------------------------------------------------------
// integer terms
// ---------------------------------------------------------------------------

/// The expressions the integer encoding has a term for: row selectors,
/// constants, variables of the main trace or the public inputs, the field
/// operations `+ - *`, comparison, zero tests, the bitwise operations on
/// field elements and the limb-wise bitwise operations on words.
pub open spec fn smt_int_ok(e: ZEBRASymbolicExpr) -> bool
    decreases e,
{
    match e {
        ZEBRASymbolicExpr::IsFirstRow | ZEBRASymbolicExpr::IsTransition
        | ZEBRASymbolicExpr::IsLastRow | ZEBRASymbolicExpr::Constant(_) => true,
        ZEBRASymbolicExpr::Variable(v) => smt_entry_ok(v.entry),
        ZEBRASymbolicExpr::WhenNonZero(a, b) | ZEBRASymbolicExpr::WhenZero(a, b)
        | ZEBRASymbolicExpr::Add(a, b) | ZEBRASymbolicExpr::Sub(a, b)
        | ZEBRASymbolicExpr::Mul(a, b) | ZEBRASymbolicExpr::Lt(a, b)
        | ZEBRASymbolicExpr::And(a, b) | ZEBRASymbolicExpr::Or(a, b)
        | ZEBRASymbolicExpr::Xor(a, b) => smt_int_ok(*a) && smt_int_ok(*b),
        ZEBRASymbolicExpr::Flip(a) | ZEBRASymbolicExpr::Neg(a) => smt_int_ok(*a),
        ZEBRASymbolicExpr::WordAnd(a, b) | ZEBRASymbolicExpr::WordOr(a, b)
        | ZEBRASymbolicExpr::WordXOr(a, b) => {
            &&& smt_int_ok(*a.l0)
            &&& smt_int_ok(*a.l1)
            &&& smt_int_ok(*a.l2)
            &&& smt_int_ok(*a.l3)
            &&& smt_int_ok(*b.l0)
            &&& smt_int_ok(*b.l1)
            &&& smt_int_ok(*b.l2)
            &&& smt_int_ok(*b.l3)
        },
        _ => false,
    }
}

/// One step of the little-endian sum of byte limbs in integer arithmetic:
/// `acc + t * 256^k`, where `tail` closes the term with the factor.
pub open spec fn int_acc(acc: Seq<char>, t: Seq<char>, tail: Seq<char>) -> Seq<char> {
    "(+ "@ + acc + " (* "@ + t + tail
}

/// The value of four byte limbs, least significant first.
pub open spec fn int_word_sum(t0: Seq<char>, t1: Seq<char>, t2: Seq<char>, t3: Seq<char>) -> Seq<char> {
    int_acc(int_acc(int_acc(t0, t1, " 256))"@), t2, " 65536))"@), t3, " 16777216))"@)
}

/// The integer term of `e` at row `row` of `n_rows`.
pub open spec fn int_term(e: ZEBRASymbolicExpr, row: nat, n_rows: nat) -> Seq<char>
    decreases e,
{
    match e {
        ZEBRASymbolicExpr::IsFirstRow => if row == 0 { "1"@ } else { "0"@ },
        ZEBRASymbolicExpr::IsTransition => if row + 1 < n_rows { "1"@ } else { "0"@ },
        ZEBRASymbolicExpr::IsLastRow => if row + 1 == n_rows { "1"@ } else { "0"@ },
        ZEBRASymbolicExpr::Constant(c) => int_text(c.lo as int),
        ZEBRASymbolicExpr::Variable(v) => smt_var_name(v, row),
        ZEBRASymbolicExpr::WhenNonZero(a, b) => "(ite (= "@ + int_term(*a, row, n_rows) + " 0) 0 "@ + int_term(*b, row, n_rows) + ")"@,
        ZEBRASymbolicExpr::WhenZero(a, b) => "(ite (= "@ + int_term(*a, row, n_rows) + " 0) "@ + int_term(*b, row, n_rows) + " 0)"@,
        ZEBRASymbolicExpr::Add(a, b) => "(+ "@ + int_term(*a, row, n_rows) + " "@ + int_term(*b, row, n_rows) + ")"@,
        ZEBRASymbolicExpr::Sub(a, b) => "(- "@ + int_term(*a, row, n_rows) + " "@ + int_term(*b, row, n_rows) + ")"@,
        ZEBRASymbolicExpr::Mul(a, b) => "(* "@ + int_term(*a, row, n_rows) + " "@ + int_term(*b, row, n_rows) + ")"@,
        ZEBRASymbolicExpr::Lt(a, b) => "(ite (< "@ + int_term(*a, row, n_rows) + " "@ + int_term(*b, row, n_rows) + ") 1 0)"@,
        ZEBRASymbolicExpr::And(a, b) => "(bitwise_and "@ + int_term(*a, row, n_rows) + " "@ + int_term(*b, row, n_rows) + ")"@,
        ZEBRASymbolicExpr::Or(a, b) => "(bitwise_or "@ + int_term(*a, row, n_rows) + " "@ + int_term(*b, row, n_rows) + ")"@,
        ZEBRASymbolicExpr::Xor(a, b) => "(bitwise_xor "@ + int_term(*a, row, n_rows) + " "@ + int_term(*b, row, n_rows) + ")"@,
        ZEBRASymbolicExpr::Flip(a) => "(ite (= "@ + int_term(*a, row, n_rows) + " 0) 1 0)"@,
        ZEBRASymbolicExpr::Neg(a) => "(- "@ + int_term(*a, row, n_rows) + ")"@,
        ZEBRASymbolicExpr::WordAnd(a, b) => "bitwise_and("@ + int_word_sum(int_term(*a.l0, row, n_rows), int_term(*a.l1, row, n_rows), int_term(*a.l2, row, n_rows), int_term(*a.l3, row, n_rows)) + ", "@ + int_word_sum(int_term(*b.l0, row, n_rows), int_term(*b.l1, row, n_rows), int_term(*b.l2, row, n_rows), int_term(*b.l3, row, n_rows)) + ")"@,
        ZEBRASymbolicExpr::WordOr(a, b) => "bitwise_or("@ + int_word_sum(int_term(*a.l0, row, n_rows), int_term(*a.l1, row, n_rows), int_term(*a.l2, row, n_rows), int_term(*a.l3, row, n_rows)) + ", "@ + int_word_sum(int_term(*b.l0, row, n_rows), int_term(*b.l1, row, n_rows), int_term(*b.l2, row, n_rows), int_term(*b.l3, row, n_rows)) + ")"@,
        ZEBRASymbolicExpr::WordXOr(a, b) => "bitwise_xor("@ + int_word_sum(int_term(*a.l0, row, n_rows), int_term(*a.l1, row, n_rows), int_term(*a.l2, row, n_rows), int_term(*a.l3, row, n_rows)) + ", "@ + int_word_sum(int_term(*b.l0, row, n_rows), int_term(*b.l1, row, n_rows), int_term(*b.l2, row, n_rows), int_term(*b.l3, row, n_rows)) + ")"@,
        _ => Seq::empty(),
    }
}

/// The value of four byte limbs, least significant first.
fn int_word_sum_string(t0: String, t1: String, t2: String, t3: String) -> (r: String)
    ensures
        r@ == int_word_sum(t0@, t1@, t2@, t3@),
{
    let a1 = wrap2("(+ ", t0, " (* ", t1, " 256))");
    let a2 = wrap2("(+ ", a1, " (* ", t2, " 65536))");
    wrap2("(+ ", a2, " (* ", t3, " 16777216))")
}

/// The integer term of `e` at row `row` of `n_rows`.
pub fn int_term_string(e: &ZEBRASymbolicExpr, row: usize, n_rows: usize) -> (r: String)
    requires
        smt_int_ok(*e),
        row < n_rows,
    ensures
        r@ == int_term(*e, row as nat, n_rows as nat),
    decreases e, 1nat,
{
    match e {
        ZEBRASymbolicExpr::IsFirstRow => {
            if row == 0 { String::from_str("1") } else { String::from_str("0") }
        },
        ZEBRASymbolicExpr::IsTransition => {
            if row + 1 < n_rows { String::from_str("1") } else { String::from_str("0") }
        },
        ZEBRASymbolicExpr::IsLastRow => {
            if row + 1 == n_rows { String::from_str("1") } else { String::from_str("0") }
        },
        ZEBRASymbolicExpr::Constant(c) => {
            let mut r = String::new();
            push_int(&mut r, c.lo);
            assert(r@ =~= int_text(c.lo as int));
            r
        },
        ZEBRASymbolicExpr::Variable(v) => var_name_string(*v, row),
        _ => int_op_string(e, row, n_rows),
    }
}

/// The value of a word's limbs in integer arithmetic.
fn int_word_string(w: &ExprWord, row: usize, n_rows: usize) -> (r: String)
    requires
        smt_int_ok(*w.l0),
        smt_int_ok(*w.l1),
        smt_int_ok(*w.l2),
        smt_int_ok(*w.l3),
        row < n_rows,
    ensures
        r@ == int_word_sum(
            int_term(*w.l0, row as nat, n_rows as nat),
            int_term(*w.l1, row as nat, n_rows as nat),
            int_term(*w.l2, row as nat, n_rows as nat),
            int_term(*w.l3, row as nat, n_rows as nat),
        ),
    decreases w, 0nat,
{
    let t0 = int_term_string(&w.l0, row, n_rows);
    let t1 = int_term_string(&w.l1, row, n_rows);
    let t2 = int_term_string(&w.l2, row, n_rows);
    let t3 = int_term_string(&w.l3, row, n_rows);
    int_word_sum_string(t0, t1, t2, t3)
}

/// The integer term of an operation.
fn int_op_string(e: &ZEBRASymbolicExpr, row: usize, n_rows: usize) -> (r: String)
    requires
        smt_int_ok(*e),
        row < n_rows,
        !(e is IsFirstRow || e is IsTransition || e is IsLastRow || e is Constant || e is Variable),
    ensures
        r@ == int_term(*e, row as nat, n_rows as nat),
    decreases e, 0nat,
{
    match e {
        ZEBRASymbolicExpr::WhenNonZero(a, b) => wrap2("(ite (= ", int_term_string(a, row, n_rows), " 0) 0 ", int_term_string(b, row, n_rows), ")"),
        ZEBRASymbolicExpr::WhenZero(a, b) => wrap2("(ite (= ", int_term_string(a, row, n_rows), " 0) ", int_term_string(b, row, n_rows), " 0)"),
        ZEBRASymbolicExpr::Add(a, b) => wrap2("(+ ", int_term_string(a, row, n_rows), " ", int_term_string(b, row, n_rows), ")"),
        ZEBRASymbolicExpr::Sub(a, b) => wrap2("(- ", int_term_string(a, row, n_rows), " ", int_term_string(b, row, n_rows), ")"),
        ZEBRASymbolicExpr::Mul(a, b) => wrap2("(* ", int_term_string(a, row, n_rows), " ", int_term_string(b, row, n_rows), ")"),
        ZEBRASymbolicExpr::Lt(a, b) => wrap2("(ite (< ", int_term_string(a, row, n_rows), " ", int_term_string(b, row, n_rows), ") 1 0)"),
        ZEBRASymbolicExpr::And(a, b) => wrap2("(bitwise_and ", int_term_string(a, row, n_rows), " ", int_term_string(b, row, n_rows), ")"),
        ZEBRASymbolicExpr::Or(a, b) => wrap2("(bitwise_or ", int_term_string(a, row, n_rows), " ", int_term_string(b, row, n_rows), ")"),
        ZEBRASymbolicExpr::Xor(a, b) => wrap2("(bitwise_xor ", int_term_string(a, row, n_rows), " ", int_term_string(b, row, n_rows), ")"),
        ZEBRASymbolicExpr::Flip(a) => wrap1("(ite (= ", int_term_string(a, row, n_rows), " 0) 1 0)"),
        ZEBRASymbolicExpr::Neg(a) => wrap1("(- ", int_term_string(a, row, n_rows), ")"),
        ZEBRASymbolicExpr::WordAnd(a, b) => wrap2("bitwise_and(", int_word_string(a, row, n_rows), ", ", int_word_string(b, row, n_rows), ")"),
        ZEBRASymbolicExpr::WordOr(a, b) => wrap2("bitwise_or(", int_word_string(a, row, n_rows), ", ", int_word_string(b, row, n_rows), ")"),
        ZEBRASymbolicExpr::WordXOr(a, b) => wrap2("bitwise_xor(", int_word_string(a, row, n_rows), ", ", int_word_string(b, row, n_rows), ")"),
        _ => String::from_str("0"),
    }
}


// ---------------------------------------------------------------------------
// meaning of the word comparisons in the bit-vector query
// ---------------------------------------------------------------------------

/// What SMT-LIB's comparison `op` of two 32-bit vectors means, for vectors
/// whose unsigned values are `x` and `y` (the signed forms read them in two's
/// complement); any other text means nothing.
pub open spec fn smtlib_bv_cmp(op: Seq<char>, x: int, y: int) -> bool {
    if op == "bvult"@ {
        x < y
    } else if op == "bvule"@ {
        x <= y
    } else if op == "bvslt"@ {
        signed_value(x) < signed_value(y)
    } else if op == "bvsle"@ {
        signed_value(x) <= signed_value(y)
    } else {
        false
    }
}

/// The flag term `(ite (op a b) #x00000001 #x00000000)`: 1 when the
/// comparison holds, 0 otherwise.
pub open spec fn bv_flag_term(op: Seq<char>, a: Seq<char>, b: Seq<char>) -> Seq<char> {
    "(ite ("@ + op + " "@ + a + " "@ + b + ") #x00000001 #x00000000)"@
}

/// The bit-vector term of a word: the 32-bit sum of its limbs' terms.
pub open spec fn bv_word_term(w: ExprWord, row: nat, n_rows: nat, nfo: bool) -> Seq<char> {
    bv_word_sum(bv_term(*w.l0, row, n_rows, nfo), bv_term(*w.l1, row, n_rows, nfo), bv_term(*w.l2, row, n_rows, nfo), bv_term(*w.l3, row, n_rows, nfo))
}

/// The prefix of a flag term spells the comparison it makes.
proof fn lemma_flag_prefixes()
    ensures
        "(ite (bvult "@ == "(ite ("@ + "bvult"@ + " "@,
        "(ite (bvslt "@ == "(ite ("@ + "bvslt"@ + " "@,
        "(ite (bvsle "@ == "(ite ("@ + "bvsle"@ + " "@,
{
    reveal_strlit("(ite (bvult ");
    reveal_strlit("(ite (bvslt ");
    reveal_strlit("(ite (bvsle ");
    reveal_strlit("(ite (");
    reveal_strlit("bvult");
    reveal_strlit("bvslt");
    reveal_strlit("bvsle");
    reveal_strlit(" ");
    assert("(ite (bvult "@ =~= "(ite ("@ + "bvult"@ + " "@);
    assert("(ite (bvslt "@ =~= "(ite ("@ + "bvslt"@ + " "@);
    assert("(ite (bvsle "@ =~= "(ite ("@ + "bvsle"@ + " "@);
}

/// What the three comparison names mean.
proof fn lemma_cmp_meanings(x: int, y: int)
    ensures
        smtlib_bv_cmp("bvult"@, x, y) == (x < y),
        smtlib_bv_cmp("bvslt"@, x, y) == (signed_value(x) < signed_value(y)),
        smtlib_bv_cmp("bvsle"@, x, y) == (signed_value(x) <= signed_value(y)),
{
    reveal_strlit("bvult");
    reveal_strlit("bvule");
    reveal_strlit("bvslt");
    reveal_strlit("bvsle");
    assert("bvslt"@[2] != "bvult"@[2]);
    assert("bvslt"@[2] != "bvule"@[2]);
    assert("bvsle"@[2] != "bvult"@[2]);
    assert("bvsle"@[2] != "bvule"@[2]);
    assert("bvsle"@[4] != "bvslt"@[4]);
}

/// The term of `WordLt` is the flag of a comparison of the two words' 32-bit
/// values whose SMT-LIB meaning is, on all values, unsigned `<`.
pub proof fn law_bv_word_lt(a: ExprWord, b: ExprWord, row: nat, n_rows: nat, nfo: bool)
    ensures
        exists|op: Seq<char>|
            bv_term(ZEBRASymbolicExpr::WordLt(a, b), row, n_rows, nfo) == #[trigger] bv_flag_term(op, bv_word_term(a, row, n_rows, nfo), bv_word_term(b, row, n_rows, nfo))
                && forall|x: int, y: int| 0 <= x < 0x1_0000_0000 && 0 <= y < 0x1_0000_0000 ==> (smtlib_bv_cmp(op, x, y) <==> x < y),
{
    let ta = bv_word_term(a, row, n_rows, nfo);
    let tb = bv_word_term(b, row, n_rows, nfo);
    let t = bv_term(ZEBRASymbolicExpr::WordLt(a, b), row, n_rows, nfo);
    assert(t == "(ite (bvult "@ + ta + " "@ + tb + ") #x00000001 #x00000000)"@);
    lemma_flag_prefixes();
    assert(t =~= bv_flag_term("bvult"@, ta, tb));
    assert forall|x: int, y: int| 0 <= x < 0x1_0000_0000 && 0 <= y < 0x1_0000_0000 implies (smtlib_bv_cmp("bvult"@, x, y) <==> x < y) by {
        lemma_cmp_meanings(x, y);
    }
}

/// The term of `WordSLt` is the flag of a comparison of the two words'
/// 32-bit values whose SMT-LIB meaning is, on all values, signed `<`.
pub proof fn law_bv_word_slt(a: ExprWord, b: ExprWord, row: nat, n_rows: nat, nfo: bool)
    ensures
        exists|op: Seq<char>|
            bv_term(ZEBRASymbolicExpr::WordSLt(a, b), row, n_rows, nfo) == #[trigger] bv_flag_term(op, bv_word_term(a, row, n_rows, nfo), bv_word_term(b, row, n_rows, nfo))
                && forall|x: int, y: int| 0 <= x < 0x1_0000_0000 && 0 <= y < 0x1_0000_0000 ==> (smtlib_bv_cmp(op, x, y) <==> signed_value(x) < signed_value(y)),
{
    let ta = bv_word_term(a, row, n_rows, nfo);
    let tb = bv_word_term(b, row, n_rows, nfo);
    let t = bv_term(ZEBRASymbolicExpr::WordSLt(a, b), row, n_rows, nfo);
    assert(t == "(ite (bvslt "@ + ta + " "@ + tb + ") #x00000001 #x00000000)"@);
    lemma_flag_prefixes();
    assert(t =~= bv_flag_term("bvslt"@, ta, tb));
    assert forall|x: int, y: int| 0 <= x < 0x1_0000_0000 && 0 <= y < 0x1_0000_0000 implies (smtlib_bv_cmp("bvslt"@, x, y) <==> signed_value(x) < signed_value(y)) by {
        lemma_cmp_meanings(x, y);
    }
}

/// The term of `WordSLe` is the flag of a comparison of the two words'
/// 32-bit values whose SMT-LIB meaning is, on all values, signed `<=`.
pub proof fn law_bv_word_sle(a: ExprWord, b: ExprWord, row: nat, n_rows: nat, nfo: bool)
    ensures
        exists|op: Seq<char>|
            bv_term(ZEBRASymbolicExpr::WordSLe(a, b), row, n_rows, nfo) == #[trigger] bv_flag_term(op, bv_word_term(a, row, n_rows, nfo), bv_word_term(b, row, n_rows, nfo))
                && forall|x: int, y: int| 0 <= x < 0x1_0000_0000 && 0 <= y < 0x1_0000_0000 ==> (smtlib_bv_cmp(op, x, y) <==> signed_value(x) <= signed_value(y)),
{
    let ta = bv_word_term(a, row, n_rows, nfo);
    let tb = bv_word_term(b, row, n_rows, nfo);
    let t = bv_term(ZEBRASymbolicExpr::WordSLe(a, b), row, n_rows, nfo);
    assert(t == "(ite (bvsle "@ + ta + " "@ + tb + ") #x00000001 #x00000000)"@);
    lemma_flag_prefixes();
    assert(t =~= bv_flag_term("bvsle"@, ta, tb));
    assert forall|x: int, y: int| 0 <= x < 0x1_0000_0000 && 0 <= y < 0x1_0000_0000 implies (smtlib_bv_cmp("bvsle"@, x, y) <==> signed_value(x) <= signed_value(y)) by {
        lemma_cmp_meanings(x, y);
    }
}

} // verus!
