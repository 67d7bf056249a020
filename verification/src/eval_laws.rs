use vstd::prelude::*;

use crate::interval::{AbstractInterval, MayBeFlag};
use crate::interval_laws::{
    law_add_sound, law_bitand_sound, law_bitor_sound, law_bitxor_sound, law_div_floor_sound, law_is_zero_sound,
    law_ltu_sound, law_modulo_sound, law_mul_sound, law_neg_sound, law_sub_sound,
};
use crate::symbolic::{
    flag_iv, flip_ok, one_iv, spec_flip, spec_guarded, spec_word_kind, word_kind_ok, zero_iv, HIGH_WORD_DIVISOR, LOW_WORD_MODULUS, EvalEnv, ExprWord, WordKind, ZEBRASymbolicEntry, ZEBRASymbolicExpr,
    ZEBRASymbolicVal,
};
use crate::word_laws::{
    bytes_in_word, bytes_value, law_word_addu_sound, law_word_and_sound, law_word_eq_sound, law_word_ltu_sound,
    law_word_mul_sound, law_word_div_sound, law_word_mulhs_sound, law_word_mulhu_sound, law_word_srl_sound, law_word_or_sound, law_word_sle_sound, law_word_slt_sound,
    law_word_subu_sound, law_word_xor_sound, member, signed_value,
};
use crate::wordop::{spec_word_to_unsigned, Word, WORD_BOUND};

verus! {

/// Concrete values of a row: the current row, the next row when there is
/// one, the public inputs when there are any.
pub type ConcreteRow = (Seq<int>, Option<Seq<int>>, Option<Seq<int>>);

/// Every concrete value lies in the interval of its cell.
pub open spec fn cells_member(vals: Seq<int>, ivs: Seq<AbstractInterval>) -> bool {
    &&& vals.len() == ivs.len()
    &&& forall|i: int| 0 <= i < vals.len() ==> #[trigger] ivs[i].contains(vals[i])
}

/// The concrete row is a member of the abstract one.
pub open spec fn row_member(vals: ConcreteRow, env: EvalEnv) -> bool {
    &&& cells_member(vals.0, env.curr)
    &&& match (vals.1, env.next) {
        (Some(c), Some(a)) => cells_member(c, a),
        (None, None) => true,
        _ => false,
    }
    &&& match (vals.2, env.public) {
        (Some(c), Some(a)) => cells_member(c, a),
        (None, None) => true,
        _ => false,
    }
}

/// The concrete value of a variable; a next-row cell of the last row is `0`.
pub open spec fn conc_var(cell: ZEBRASymbolicVal, vals: ConcreteRow) -> int {
    match cell.entry {
        ZEBRASymbolicEntry::Public => match vals.2 {
            Some(pv) => pv[cell.index as int],
            None => 0,
        },
        ZEBRASymbolicEntry::Main { is_curr }
        | ZEBRASymbolicEntry::Preprocessed { is_curr }
        | ZEBRASymbolicEntry::Permutation { is_curr } => if is_curr {
            vals.0[cell.index as int]
        } else {
            match vals.1 {
                Some(nr) => nr[cell.index as int],
                None => 0,
            }
        },
    }
}

/// The expressions the soundness law covers: row selectors, constants,
/// variables, `+ - *`, negation, the conditionals on a zero test, the
/// bitwise `& | ^`, the low and high product words and the unsigned
/// comparison of two field elements, and these word operators: the wrapping
/// sum, difference and product, the unsigned and signed high products, the
/// unsigned quotient, the logical right shift, the unsigned and signed
/// comparisons, the bitwise operators and the (in)equality tests.
pub open spec fn field_expr(e: ZEBRASymbolicExpr) -> bool
    decreases e,
{
    match e {
        ZEBRASymbolicExpr::IsFirstRow | ZEBRASymbolicExpr::IsTransition
        | ZEBRASymbolicExpr::IsLastRow | ZEBRASymbolicExpr::Variable(_) => true,
        ZEBRASymbolicExpr::Constant(c) => c.lo <= c.hi,
        ZEBRASymbolicExpr::WhenNonZero(a, b) | ZEBRASymbolicExpr::WhenZero(a, b)
        | ZEBRASymbolicExpr::Add(a, b) | ZEBRASymbolicExpr::Sub(a, b)
        | ZEBRASymbolicExpr::Mul(a, b) | ZEBRASymbolicExpr::And(a, b)
        | ZEBRASymbolicExpr::Or(a, b) | ZEBRASymbolicExpr::Xor(a, b) | ZEBRASymbolicExpr::MulLo(a, b)
        | ZEBRASymbolicExpr::MulHiUU(a, b) | ZEBRASymbolicExpr::MulHiSS(a, b)
        | ZEBRASymbolicExpr::Lt(a, b) => field_expr(*a) && field_expr(*b),
        ZEBRASymbolicExpr::Neg(a) => field_expr(*a),
        ZEBRASymbolicExpr::WordAddU(b, c)
        | ZEBRASymbolicExpr::WordSubU(b, c)
        | ZEBRASymbolicExpr::WordMul(b, c)
        | ZEBRASymbolicExpr::WordMulhu(b, c)
        | ZEBRASymbolicExpr::WordMulhs(b, c)
        | ZEBRASymbolicExpr::WordMulth(b, c)
        | ZEBRASymbolicExpr::WordMultuh(b, c)
        | ZEBRASymbolicExpr::WordDiv(b, c)
        | ZEBRASymbolicExpr::WordSrl(b, c)
        | ZEBRASymbolicExpr::WordLt(b, c)
        | ZEBRASymbolicExpr::WordSLe(b, c)
        | ZEBRASymbolicExpr::WordSLt(b, c)
        | ZEBRASymbolicExpr::WordAnd(b, c)
        | ZEBRASymbolicExpr::WordOr(b, c)
        | ZEBRASymbolicExpr::WordXOr(b, c)
        | ZEBRASymbolicExpr::WordEq(b, c)
        | ZEBRASymbolicExpr::WordNEq(b, c) => {
            &&& field_expr(*b.l0) && field_expr(*b.l1) && field_expr(*b.l2) && field_expr(*b.l3)
            &&& field_expr(*c.l0) && field_expr(*c.l1) && field_expr(*c.l2) && field_expr(*c.l3)
        },
        _ => false,
    }
}

/// The concrete value of a word operator on two words given as their bytes.
pub open spec fn word_conc(kind: WordKind, x: (int, int, int, int), y: (int, int, int, int)) -> int {
    let vx = bytes_value(x);
    let vy = bytes_value(y);
    match kind {
        WordKind::AddU => (vx + vy) % (WORD_BOUND as int),
        WordKind::SubU => (vx - vy) % (WORD_BOUND as int),
        WordKind::Mul => (vx * vy) % (WORD_BOUND as int),
        WordKind::Mulhu | WordKind::Multuh => (vx * vy) / (WORD_BOUND as int),
        WordKind::Div => vx / vy,
        WordKind::Srl => ((vx as i128) >> (vy as u32)) as int,
        WordKind::Mulhs | WordKind::Multh => (signed_value(vx) * signed_value(vy)) / (WORD_BOUND as int),
        WordKind::Lt => if vx < vy { 1 } else { 0 },
        WordKind::SLe => if signed_value(vx) <= signed_value(vy) { 1 } else { 0 },
        WordKind::SLt => if signed_value(vx) < signed_value(vy) { 1 } else { 0 },
        WordKind::And => ((vx as i128) & (vy as i128)) as int,
        WordKind::Or => ((vx as i128) | (vy as i128)) as int,
        WordKind::XOr => ((vx as i128) ^ (vy as i128)) as int,
        WordKind::Eq => if vx == vy { 1 } else { 0 },
        WordKind::NEq => if vx != vy { 1 } else { 0 },
        _ => 0,
    }
}

/// The word operators that `word_conc` gives a value.
pub open spec fn word_kind_covered(kind: WordKind) -> bool {
    match kind {
        WordKind::AddU | WordKind::SubU | WordKind::Mul | WordKind::Mulhu | WordKind::Mulhs | WordKind::Multh
        | WordKind::Multuh | WordKind::Div | WordKind::Srl | WordKind::Lt | WordKind::SLe
        | WordKind::SLt | WordKind::And | WordKind::Or | WordKind::XOr | WordKind::Eq | WordKind::NEq => true,
        _ => false,
    }
}

/// Every limb of the word has a non-negative lower end.
pub open spec fn lows_nonneg(w: Word) -> bool {
    w[0].lo >= 0 && w[1].lo >= 0 && w[2].lo >= 0 && w[3].lo >= 0
}

/// A covered word operator on members of two words of non-negative limbs
/// gives a member of its abstract value.
proof fn lemma_word_kind_member(kind: WordKind, a: Word, b: Word, x: (int, int, int, int), y: (int, int, int, int))
    requires
        word_kind_covered(kind),
        word_kind_ok(kind, a, b),
        bytes_in_word(a, x),
        bytes_in_word(b, y),
        lows_nonneg(a),
        lows_nonneg(b),
        kind == WordKind::Div ==> spec_word_to_unsigned(b).lo > 0,
        kind == WordKind::Srl ==> spec_word_to_unsigned(b).hi < 32,
    ensures
        member(spec_word_kind(kind, a, b), word_conc(kind, x, y)),
{
    match kind {
        WordKind::AddU => law_word_addu_sound(a, b, x, y),
        WordKind::SubU => law_word_subu_sound(a, b, x, y),
        WordKind::Mul => law_word_mul_sound(a, b, x, y),
        WordKind::Mulhu | WordKind::Multuh => law_word_mulhu_sound(a, b, x, y),
        WordKind::Div => law_word_div_sound(a, b, x, y),
        WordKind::Srl => law_word_srl_sound(a, b, x, y),
        WordKind::Mulhs | WordKind::Multh => law_word_mulhs_sound(a, b, x, y),
        WordKind::Lt => law_word_ltu_sound(a, b, x, y),
        WordKind::SLe => law_word_sle_sound(a, b, x, y),
        WordKind::SLt => law_word_slt_sound(a, b, x, y),
        WordKind::And => law_word_and_sound(a, b, x, y),
        WordKind::Or => law_word_or_sound(a, b, x, y),
        WordKind::XOr => law_word_xor_sound(a, b, x, y),
        WordKind::Eq | WordKind::NEq => law_word_eq_sound(a, b, x, y),
        _ => {},
    }
}

/// The word operator of a word node.
pub open spec fn word_node_kind(e: ZEBRASymbolicExpr) -> WordKind {
    match e {
        ZEBRASymbolicExpr::WordAddU(..) => WordKind::AddU,
        ZEBRASymbolicExpr::WordSubU(..) => WordKind::SubU,
        ZEBRASymbolicExpr::WordMul(..) => WordKind::Mul,
        ZEBRASymbolicExpr::WordMulhu(..) => WordKind::Mulhu,
        ZEBRASymbolicExpr::WordMulhs(..) => WordKind::Mulhs,
        ZEBRASymbolicExpr::WordMulth(..) => WordKind::Multh,
        ZEBRASymbolicExpr::WordMultuh(..) => WordKind::Multuh,
        ZEBRASymbolicExpr::WordDiv(..) => WordKind::Div,
        ZEBRASymbolicExpr::WordSrl(..) => WordKind::Srl,
        ZEBRASymbolicExpr::WordLt(..) => WordKind::Lt,
        ZEBRASymbolicExpr::WordSLe(..) => WordKind::SLe,
        ZEBRASymbolicExpr::WordSLt(..) => WordKind::SLt,
        ZEBRASymbolicExpr::WordAnd(..) => WordKind::And,
        ZEBRASymbolicExpr::WordOr(..) => WordKind::Or,
        ZEBRASymbolicExpr::WordXOr(..) => WordKind::XOr,
        ZEBRASymbolicExpr::WordEq(..) => WordKind::Eq,
        ZEBRASymbolicExpr::WordNEq(..) => WordKind::NEq,
        _ => WordKind::Srl,
    }
}

/// The concrete integer value of a field expression on a row: a
/// conditional is `0` when its condition fails, the condition being that
/// the value is (for `WhenZero`) or is not (for `WhenNonZero`) a multiple of
/// the prime.
pub open spec fn conc_value(e: ZEBRASymbolicExpr, vals: ConcreteRow, env: EvalEnv) -> int
    decreases e,
{
    let p = env.prime as int;
    match e {
        ZEBRASymbolicExpr::IsFirstRow => if env.is_first_row { 1 } else { 0 },
        ZEBRASymbolicExpr::IsTransition => if env.is_transition { 1 } else { 0 },
        ZEBRASymbolicExpr::IsLastRow => if env.is_last_row { 1 } else { 0 },
        ZEBRASymbolicExpr::Constant(c) => c.lo as int,
        ZEBRASymbolicExpr::Variable(cell) => conc_var(cell, vals),
        ZEBRASymbolicExpr::WhenNonZero(a, b) => if conc_value(*a, vals, env) % p == 0 {
            0
        } else {
            conc_value(*b, vals, env)
        },
        ZEBRASymbolicExpr::WhenZero(a, b) => if conc_value(*a, vals, env) % p == 0 {
            conc_value(*b, vals, env)
        } else {
            0
        },
        ZEBRASymbolicExpr::Add(a, b) => conc_value(*a, vals, env) + conc_value(*b, vals, env),
        ZEBRASymbolicExpr::Sub(a, b) => conc_value(*a, vals, env) - conc_value(*b, vals, env),
        ZEBRASymbolicExpr::Mul(a, b) => conc_value(*a, vals, env) * conc_value(*b, vals, env),
        ZEBRASymbolicExpr::Neg(a) => -conc_value(*a, vals, env),
        ZEBRASymbolicExpr::And(a, b) => ((conc_value(*a, vals, env) % p) as i128 & (conc_value(*b, vals, env) % p) as i128) as int,
        ZEBRASymbolicExpr::Or(a, b) => ((conc_value(*a, vals, env) % p) as i128 | (conc_value(*b, vals, env) % p) as i128) as int,
        ZEBRASymbolicExpr::Xor(a, b) => ((conc_value(*a, vals, env) % p) as i128 ^ (conc_value(*b, vals, env) % p) as i128) as int,
        ZEBRASymbolicExpr::MulLo(a, b) => ((conc_value(*a, vals, env) % p) * (conc_value(*b, vals, env) % p)) % (
        LOW_WORD_MODULUS as int),
        ZEBRASymbolicExpr::MulHiUU(a, b) => ((conc_value(*a, vals, env) % p) * (conc_value(*b, vals, env) % p)) / (
        HIGH_WORD_DIVISOR as int),
        ZEBRASymbolicExpr::MulHiSS(a, b) => (signed_value(conc_value(*a, vals, env) % p) * signed_value(
            conc_value(*b, vals, env) % p,
        )) / (HIGH_WORD_DIVISOR as int),
        ZEBRASymbolicExpr::Lt(a, b) => if conc_value(*a, vals, env) % p < conc_value(*b, vals, env) % p {
            0
        } else {
            1
        },
        ZEBRASymbolicExpr::WordAddU(b, c) => word_conc(
            WordKind::AddU,
            (conc_value(*b.l0, vals, env) % p, conc_value(*b.l1, vals, env) % p, conc_value(*b.l2, vals, env) % p, conc_value(*b.l3, vals, env) % p),
            (conc_value(*c.l0, vals, env) % p, conc_value(*c.l1, vals, env) % p, conc_value(*c.l2, vals, env) % p, conc_value(*c.l3, vals, env) % p),
        ),
        ZEBRASymbolicExpr::WordSubU(b, c) => word_conc(
            WordKind::SubU,
            (conc_value(*b.l0, vals, env) % p, conc_value(*b.l1, vals, env) % p, conc_value(*b.l2, vals, env) % p, conc_value(*b.l3, vals, env) % p),
            (conc_value(*c.l0, vals, env) % p, conc_value(*c.l1, vals, env) % p, conc_value(*c.l2, vals, env) % p, conc_value(*c.l3, vals, env) % p),
        ),
        ZEBRASymbolicExpr::WordMul(b, c) => word_conc(
            WordKind::Mul,
            (conc_value(*b.l0, vals, env) % p, conc_value(*b.l1, vals, env) % p, conc_value(*b.l2, vals, env) % p, conc_value(*b.l3, vals, env) % p),
            (conc_value(*c.l0, vals, env) % p, conc_value(*c.l1, vals, env) % p, conc_value(*c.l2, vals, env) % p, conc_value(*c.l3, vals, env) % p),
        ),
        ZEBRASymbolicExpr::WordMulhu(b, c) => word_conc(
            WordKind::Mulhu,
            (conc_value(*b.l0, vals, env) % p, conc_value(*b.l1, vals, env) % p, conc_value(*b.l2, vals, env) % p, conc_value(*b.l3, vals, env) % p),
            (conc_value(*c.l0, vals, env) % p, conc_value(*c.l1, vals, env) % p, conc_value(*c.l2, vals, env) % p, conc_value(*c.l3, vals, env) % p),
        ),
        ZEBRASymbolicExpr::WordMulhs(b, c) => word_conc(
            WordKind::Mulhs,
            (conc_value(*b.l0, vals, env) % p, conc_value(*b.l1, vals, env) % p, conc_value(*b.l2, vals, env) % p, conc_value(*b.l3, vals, env) % p),
            (conc_value(*c.l0, vals, env) % p, conc_value(*c.l1, vals, env) % p, conc_value(*c.l2, vals, env) % p, conc_value(*c.l3, vals, env) % p),
        ),
        ZEBRASymbolicExpr::WordMulth(b, c) => word_conc(
            WordKind::Multh,
            (conc_value(*b.l0, vals, env) % p, conc_value(*b.l1, vals, env) % p, conc_value(*b.l2, vals, env) % p, conc_value(*b.l3, vals, env) % p),
            (conc_value(*c.l0, vals, env) % p, conc_value(*c.l1, vals, env) % p, conc_value(*c.l2, vals, env) % p, conc_value(*c.l3, vals, env) % p),
        ),
        ZEBRASymbolicExpr::WordMultuh(b, c) => word_conc(
            WordKind::Multuh,
            (conc_value(*b.l0, vals, env) % p, conc_value(*b.l1, vals, env) % p, conc_value(*b.l2, vals, env) % p, conc_value(*b.l3, vals, env) % p),
            (conc_value(*c.l0, vals, env) % p, conc_value(*c.l1, vals, env) % p, conc_value(*c.l2, vals, env) % p, conc_value(*c.l3, vals, env) % p),
        ),
        ZEBRASymbolicExpr::WordDiv(b, c) => word_conc(
            WordKind::Div,
            (conc_value(*b.l0, vals, env) % p, conc_value(*b.l1, vals, env) % p, conc_value(*b.l2, vals, env) % p, conc_value(*b.l3, vals, env) % p),
            (conc_value(*c.l0, vals, env) % p, conc_value(*c.l1, vals, env) % p, conc_value(*c.l2, vals, env) % p, conc_value(*c.l3, vals, env) % p),
        ),
        ZEBRASymbolicExpr::WordSrl(b, c) => word_conc(
            WordKind::Srl,
            (conc_value(*b.l0, vals, env) % p, conc_value(*b.l1, vals, env) % p, conc_value(*b.l2, vals, env) % p, conc_value(*b.l3, vals, env) % p),
            (conc_value(*c.l0, vals, env) % p, conc_value(*c.l1, vals, env) % p, conc_value(*c.l2, vals, env) % p, conc_value(*c.l3, vals, env) % p),
        ),
        ZEBRASymbolicExpr::WordLt(b, c) => word_conc(
            WordKind::Lt,
            (conc_value(*b.l0, vals, env) % p, conc_value(*b.l1, vals, env) % p, conc_value(*b.l2, vals, env) % p, conc_value(*b.l3, vals, env) % p),
            (conc_value(*c.l0, vals, env) % p, conc_value(*c.l1, vals, env) % p, conc_value(*c.l2, vals, env) % p, conc_value(*c.l3, vals, env) % p),
        ),
        ZEBRASymbolicExpr::WordSLe(b, c) => word_conc(
            WordKind::SLe,
            (conc_value(*b.l0, vals, env) % p, conc_value(*b.l1, vals, env) % p, conc_value(*b.l2, vals, env) % p, conc_value(*b.l3, vals, env) % p),
            (conc_value(*c.l0, vals, env) % p, conc_value(*c.l1, vals, env) % p, conc_value(*c.l2, vals, env) % p, conc_value(*c.l3, vals, env) % p),
        ),
        ZEBRASymbolicExpr::WordSLt(b, c) => word_conc(
            WordKind::SLt,
            (conc_value(*b.l0, vals, env) % p, conc_value(*b.l1, vals, env) % p, conc_value(*b.l2, vals, env) % p, conc_value(*b.l3, vals, env) % p),
            (conc_value(*c.l0, vals, env) % p, conc_value(*c.l1, vals, env) % p, conc_value(*c.l2, vals, env) % p, conc_value(*c.l3, vals, env) % p),
        ),
        ZEBRASymbolicExpr::WordAnd(b, c) => word_conc(
            WordKind::And,
            (conc_value(*b.l0, vals, env) % p, conc_value(*b.l1, vals, env) % p, conc_value(*b.l2, vals, env) % p, conc_value(*b.l3, vals, env) % p),
            (conc_value(*c.l0, vals, env) % p, conc_value(*c.l1, vals, env) % p, conc_value(*c.l2, vals, env) % p, conc_value(*c.l3, vals, env) % p),
        ),
        ZEBRASymbolicExpr::WordOr(b, c) => word_conc(
            WordKind::Or,
            (conc_value(*b.l0, vals, env) % p, conc_value(*b.l1, vals, env) % p, conc_value(*b.l2, vals, env) % p, conc_value(*b.l3, vals, env) % p),
            (conc_value(*c.l0, vals, env) % p, conc_value(*c.l1, vals, env) % p, conc_value(*c.l2, vals, env) % p, conc_value(*c.l3, vals, env) % p),
        ),
        ZEBRASymbolicExpr::WordXOr(b, c) => word_conc(
            WordKind::XOr,
            (conc_value(*b.l0, vals, env) % p, conc_value(*b.l1, vals, env) % p, conc_value(*b.l2, vals, env) % p, conc_value(*b.l3, vals, env) % p),
            (conc_value(*c.l0, vals, env) % p, conc_value(*c.l1, vals, env) % p, conc_value(*c.l2, vals, env) % p, conc_value(*c.l3, vals, env) % p),
        ),
        ZEBRASymbolicExpr::WordEq(b, c) => word_conc(
            WordKind::Eq,
            (conc_value(*b.l0, vals, env) % p, conc_value(*b.l1, vals, env) % p, conc_value(*b.l2, vals, env) % p, conc_value(*b.l3, vals, env) % p),
            (conc_value(*c.l0, vals, env) % p, conc_value(*c.l1, vals, env) % p, conc_value(*c.l2, vals, env) % p, conc_value(*c.l3, vals, env) % p),
        ),
        ZEBRASymbolicExpr::WordNEq(b, c) => word_conc(
            WordKind::NEq,
            (conc_value(*b.l0, vals, env) % p, conc_value(*b.l1, vals, env) % p, conc_value(*b.l2, vals, env) % p, conc_value(*b.l3, vals, env) % p),
            (conc_value(*c.l0, vals, env) % p, conc_value(*c.l1, vals, env) % p, conc_value(*c.l2, vals, env) % p, conc_value(*c.l3, vals, env) % p),
        ),
        _ => 0,
    }
}

/// The interval lies among the field elements `[0, p)`.
pub open spec fn in_field(v: AbstractInterval, p: int) -> bool {
    0 <= v.lo && v.hi < p
}

/// The operands of every bitwise operator, product word and comparison the
/// evaluation reaches lie among the field elements, and the limbs of every
/// word operator among the bytes that are field elements; the divisor of a
/// word quotient is surely not zero, and the amount of a word shift surely
/// below 32.
pub open spec fn bitwise_in_field(e: ZEBRASymbolicExpr, env: EvalEnv) -> bool
    decreases e, 1nat,
{
    let p = env.prime as int;
    match e {
        ZEBRASymbolicExpr::WhenNonZero(a, b) | ZEBRASymbolicExpr::Mul(a, b) => bitwise_in_field(*a, env) && (a.value_of(env).spec_is_zero(p)
            != MayBeFlag::True ==> bitwise_in_field(*b, env)),
        ZEBRASymbolicExpr::WhenZero(a, b) => bitwise_in_field(*a, env) && (a.value_of(env).spec_is_zero(p) != MayBeFlag::False
            ==> bitwise_in_field(*b, env)),
        ZEBRASymbolicExpr::Add(a, b) | ZEBRASymbolicExpr::Sub(a, b) => bitwise_in_field(*a, env) && bitwise_in_field(*b, env),
        ZEBRASymbolicExpr::And(a, b) | ZEBRASymbolicExpr::Or(a, b) | ZEBRASymbolicExpr::Xor(a, b)
        | ZEBRASymbolicExpr::MulLo(a, b) | ZEBRASymbolicExpr::MulHiUU(a, b) | ZEBRASymbolicExpr::MulHiSS(a, b)
        | ZEBRASymbolicExpr::Lt(a, b) => {
            &&& bitwise_in_field(*a, env)
            &&& bitwise_in_field(*b, env)
            &&& in_field(a.value_of(env), p)
            &&& in_field(b.value_of(env), p)
        },
        ZEBRASymbolicExpr::Neg(a) => bitwise_in_field(*a, env),
        ZEBRASymbolicExpr::WordAddU(b, c)
        | ZEBRASymbolicExpr::WordSubU(b, c)
        | ZEBRASymbolicExpr::WordMul(b, c)
        | ZEBRASymbolicExpr::WordMulhu(b, c)
        | ZEBRASymbolicExpr::WordMulhs(b, c)
        | ZEBRASymbolicExpr::WordMulth(b, c)
        | ZEBRASymbolicExpr::WordMultuh(b, c)
        | ZEBRASymbolicExpr::WordDiv(b, c)
        | ZEBRASymbolicExpr::WordSrl(b, c)
        | ZEBRASymbolicExpr::WordLt(b, c)
        | ZEBRASymbolicExpr::WordSLe(b, c)
        | ZEBRASymbolicExpr::WordSLt(b, c)
        | ZEBRASymbolicExpr::WordAnd(b, c)
        | ZEBRASymbolicExpr::WordOr(b, c)
        | ZEBRASymbolicExpr::WordXOr(b, c)
        | ZEBRASymbolicExpr::WordEq(b, c)
        | ZEBRASymbolicExpr::WordNEq(b, c) => {
            &&& limb_in_field(*b.l0, env) && limb_in_field(*b.l1, env) && limb_in_field(*b.l2, env) && limb_in_field(*b.l3, env)
            &&& limb_in_field(*c.l0, env) && limb_in_field(*c.l1, env) && limb_in_field(*c.l2, env) && limb_in_field(*c.l3, env)
            &&& e is WordDiv ==> spec_word_to_unsigned(ZEBRASymbolicExpr::word_value(c, env)).lo > 0
            &&& e is WordSrl ==> spec_word_to_unsigned(ZEBRASymbolicExpr::word_value(c, env)).hi < 32
        },
        _ => true,
    }
}

/// A limb whose operands meet `bitwise_in_field` and whose value lies among
/// the bytes that are field elements.
pub open spec fn limb_in_field(l: ZEBRASymbolicExpr, env: EvalEnv) -> bool
    decreases l, 2nat,
{
    &&& bitwise_in_field(l, env)
    &&& in_field(l.value_of(env), env.prime as int)
    &&& l.value_of(env).hi <= 255
}

/// A member of an interval of field elements that equals `c` in the field
/// is `c` reduced.
proof fn lemma_field_rep(iv: AbstractInterval, c: int, p: int) -> (x: int)
    requires
        p > 0,
        in_field(iv, p),
        has_rep(iv, c, p),
    ensures
        x == c % p,
        iv.contains(x),
{
    let x = choose|v: int| #[trigger] represents(iv, v, c, p);
    vstd::arithmetic::div_mod::lemma_small_mod(x as nat, p as nat);
    vstd::arithmetic::div_mod::lemma_add_mod_noop(x - c, c, p);
    assert(x - c + c == x);
    vstd::arithmetic::div_mod::lemma_small_mod(0, p as nat);
    vstd::arithmetic::div_mod::lemma_mod_twice(c, p);
    x
}

/// `v` is a member of the interval and equals `c` in the field.
pub open spec fn represents(iv: AbstractInterval, v: int, c: int, p: int) -> bool {
    iv.contains(v) && (v - c) % p == 0
}

/// The zero test answers `MayBe` only on an interval that holds a multiple
/// of `p`.
pub proof fn law_maybe_has_multiple(a: AbstractInterval, p: int)
    requires
        p > 0,
        a.spec_is_zero(p) == MayBeFlag::MayBe,
    ensures
        exists|m: int| a.contains(m) && m % p == 0,
{
    if a.lo <= 0 && 0 <= a.hi {
        assert(a.contains(0) && 0int % p == 0);
    } else {
        let lo = a.lo as int;
        let hi = a.hi as int;
        assert(hi / p - (lo - 1) / p >= 1);
        let q = hi / p;
        let m = p * q;
        vstd::arithmetic::div_mod::lemma_fundamental_div_mod(hi, p);
        vstd::arithmetic::div_mod::lemma_fundamental_div_mod(lo - 1, p);
        vstd::arithmetic::div_mod::lemma_mod_bound(hi, p);
        vstd::arithmetic::div_mod::lemma_mod_bound(lo - 1, p);
        let r = (lo - 1) / p;
        assert(m <= hi);
        assert(m >= p * (r + 1)) by (nonlinear_arith)
            requires
                q >= r + 1,
                p > 0,
                m == p * q,
        ;
        assert(p * (r + 1) > lo - 1) by (nonlinear_arith)
            requires
                lo - 1 == p * r + (lo - 1) % p,
                (lo - 1) % p < p,
        ;
        vstd::arithmetic::div_mod::lemma_mod_multiples_basic(q, p);
        assert(m % p == 0) by {
            assert(m == q * p) by (nonlinear_arith)
                requires
                    m == p * q,
            ;
        }
        assert(a.contains(m));
    }
}

/// A conditional body holds, for a value `b'` that represents the body and
/// for zero when the condition may go either way, a representative.
proof fn lemma_guarded(cz: MayBeFlag, vb: AbstractInterval, p: u32, b: int, bc: int, zero_case: bool, t: int)
    requires
        p > 0,
        represents(vb, b, bc, p as int),
        zero_case ==> cz == MayBeFlag::MayBe,
        t == if zero_case { 0 } else { bc },
    ensures
        exists|v: int| #[trigger] represents(spec_guarded(cz, vb, p), v, t, p as int),
{
    let g = spec_guarded(cz, vb, p);
    let pp = p as int;
    vstd::arithmetic::div_mod::lemma_small_mod(0, p as nat);
    law_is_zero_sound(vb, pp, b);
    if !zero_case {
        assert(g.contains(b));
        assert(represents(g, b, bc, pp));
    } else {
        match vb.spec_is_zero(pp) {
            MayBeFlag::True => {
                assert(b % pp == 0);
                assert((b - 0) % pp == 0);
                assert(represents(g, b, 0, pp));
            },
            MayBeFlag::False => {
                assert(g.contains(0));
                assert(represents(g, 0, 0, pp));
            },
            MayBeFlag::MayBe => {
                law_maybe_has_multiple(vb, pp);
                let m = choose|m: int| vb.contains(m) && m % pp == 0;
                assert(represents(g, m, 0, pp));
            },
        }
    }
}

/// `c` has a representative in `iv`.
pub open spec fn has_rep(iv: AbstractInterval, c: int, p: int) -> bool {
    exists|v: int| #[trigger] represents(iv, v, c, p)
}

proof fn step_add(va: AbstractInterval, vb: AbstractInterval, ca: int, cb: int, p: int)
    requires
        p > 0,
        va.add_ok(vb),
        has_rep(va, ca, p),
        has_rep(vb, cb, p),
    ensures
        has_rep(va.spec_add(vb), ca + cb, p),
{
    let x = choose|v: int| #[trigger] represents(va, v, ca, p);
    let y = choose|v: int| #[trigger] represents(vb, v, cb, p);
    law_add_sound(va, vb, x, y);
    vstd::arithmetic::div_mod::lemma_add_mod_noop(x - ca, y - cb, p);
    vstd::arithmetic::div_mod::lemma_small_mod(0, p as nat);
    assert((x + y) - (ca + cb) == (x - ca) + (y - cb));
    assert(represents(va.spec_add(vb), x + y, ca + cb, p));
}

proof fn step_sub(va: AbstractInterval, vb: AbstractInterval, ca: int, cb: int, p: int)
    requires
        p > 0,
        va.sub_ok(vb),
        has_rep(va, ca, p),
        has_rep(vb, cb, p),
    ensures
        has_rep(va.spec_sub(vb), ca - cb, p),
{
    let x = choose|v: int| #[trigger] represents(va, v, ca, p);
    let y = choose|v: int| #[trigger] represents(vb, v, cb, p);
    law_sub_sound(va, vb, x, y);
    vstd::arithmetic::div_mod::lemma_sub_mod_noop(x - ca, y - cb, p);
    vstd::arithmetic::div_mod::lemma_small_mod(0, p as nat);
    assert((x - y) - (ca - cb) == (x - ca) - (y - cb));
    assert(represents(va.spec_sub(vb), x - y, ca - cb, p));
}

proof fn step_neg(va: AbstractInterval, ca: int, p: int)
    requires
        p > 0,
        va.neg_ok(),
        has_rep(va, ca, p),
    ensures
        has_rep(va.spec_neg(), -ca, p),
{
    let x = choose|v: int| #[trigger] represents(va, v, ca, p);
    law_neg_sound(va, x);
    vstd::arithmetic::div_mod::lemma_sub_mod_noop(0, x - ca, p);
    vstd::arithmetic::div_mod::lemma_small_mod(0, p as nat);
    assert(-x - (-ca) == 0 - (x - ca));
    assert(represents(va.spec_neg(), -x, -ca, p));
}

proof fn step_mul_zero(va: AbstractInterval, ca: int, cb: int, p: int)
    requires
        p > 0,
        va.spec_is_zero(p) == MayBeFlag::True,
        has_rep(va, ca, p),
    ensures
        has_rep(AbstractInterval { lo: 0, hi: 0 }, ca * cb, p),
{
    let x = choose|v: int| #[trigger] represents(va, v, ca, p);
    assert(va.lo == va.hi && x == va.lo && x % p == 0);
    lemma_class_mod(x, ca, p);
    vstd::arithmetic::div_mod::lemma_mul_mod_noop_left(ca, cb, p);
    vstd::arithmetic::div_mod::lemma_small_mod(0, p as nat);
    assert(0 * cb == 0);
    vstd::arithmetic::div_mod::lemma_sub_mod_noop(0, ca * cb, p);
    assert(represents(AbstractInterval { lo: 0, hi: 0 }, 0, ca * cb, p));
}

proof fn step_mul(va: AbstractInterval, vb: AbstractInterval, ca: int, cb: int, p: int)
    requires
        p > 0,
        va.mul_ok(vb),
        has_rep(va, ca, p),
        has_rep(vb, cb, p),
    ensures
        has_rep(va.spec_mul(vb), ca * cb, p),
{
    let x = choose|v: int| #[trigger] represents(va, v, ca, p);
    let y = choose|v: int| #[trigger] represents(vb, v, cb, p);
    law_mul_sound(va, vb, x, y);
    lemma_mul_class(x, ca, y, cb, p);
    assert(represents(va.spec_mul(vb), x * y, ca * cb, p));
}

proof fn step_when(
    nonzero: bool,
    va: AbstractInterval,
    vb: AbstractInterval,
    ca: int,
    cb: int,
    p: u32,
    r: AbstractInterval,
    c: int,
)
    requires
        p > 0,
        has_rep(va, ca, p as int),
        ({
            let cz = va.spec_is_zero(p as int);
            let dropped = if nonzero { cz == MayBeFlag::True } else { cz == MayBeFlag::False };
            &&& c == if (ca % (p as int) == 0) == nonzero { 0 } else { cb }
            &&& dropped ==> r == (AbstractInterval { lo: 0, hi: 0 })
            &&& !dropped ==> {
                &&& r == spec_guarded(cz, vb, p)
                &&& has_rep(vb, cb, p as int)
            }
        }),
    ensures
        has_rep(r, c, p as int),
{
    let pp = p as int;
    let x = choose|v: int| #[trigger] represents(va, v, ca, pp);
    law_is_zero_sound(va, pp, x);
    lemma_class_mod(x, ca, pp);
    let cz = va.spec_is_zero(pp);
    let a_zero = ca % pp == 0;
    let dropped = if nonzero { cz == MayBeFlag::True } else { cz == MayBeFlag::False };
    vstd::arithmetic::div_mod::lemma_small_mod(0, p as nat);
    if dropped {
        assert(c == 0);
        assert(represents(r, 0, c, pp));
    } else {
        let y = choose|v: int| #[trigger] represents(vb, v, cb, pp);
        let zero_case = if nonzero { a_zero } else { !a_zero };
        lemma_guarded(cz, vb, p, y, cb, zero_case, c);
    }
}

/// The signed 32-bit reading of a member below `2^32` lies in the signed
/// reading of the interval.
proof fn lemma_field_signed(v: AbstractInterval, x: int)
    requires
        v.to_signed_ok(32),
        v.contains(x),
        0 <= x < 0x1_0000_0000,
    ensures
        v.spec_to_signed(32).contains(signed_value(x)),
{
    vstd::arithmetic::power2::lemma2_to64();
}

/// The low and high product words and the unsigned comparison of members
/// `x`, `y` (field elements) of the operands lie in the abstract result.
proof fn lemma_field_operator(e: ZEBRASymbolicExpr, va: AbstractInterval, vb: AbstractInterval, x: int, y: int, p: int)
    requires
        0 < p <= u32::MAX,
        va.contains(x),
        vb.contains(y),
        in_field(va, p),
        in_field(vb, p),
        e is MulLo || e is MulHiUU || e is MulHiSS || e is Lt,
        e is MulLo || e is MulHiUU ==> va.mul_ok(vb),
        e is MulHiSS ==> va.to_signed_ok(32) && vb.to_signed_ok(32) && va.spec_to_signed(32).mul_ok(
            vb.spec_to_signed(32),
        ),
    ensures
        e is MulLo ==> va.spec_mul(vb).spec_modulo(LOW_WORD_MODULUS as int).contains((x * y) % (LOW_WORD_MODULUS as int)),
        e is MulHiUU ==> va.spec_mul(vb).spec_div_floor(HIGH_WORD_DIVISOR as int).contains((x * y) / (HIGH_WORD_DIVISOR as int)),
        e is MulHiSS ==> va.spec_to_signed(32).spec_mul(vb.spec_to_signed(32)).spec_div_floor(HIGH_WORD_DIVISOR as int).contains(
            (signed_value(x) * signed_value(y)) / (HIGH_WORD_DIVISOR as int),
        ),
        e is Lt ==> va.spec_ltu(vb).contains(if x < y { 0 } else { 1 }),
{
    if e is Lt {
        law_ltu_sound(va, vb, x, y);
    } else if e is MulHiSS {
        lemma_field_signed(va, x);
        lemma_field_signed(vb, y);
        let sa = va.spec_to_signed(32);
        let sb = vb.spec_to_signed(32);
        law_mul_sound(sa, sb, signed_value(x), signed_value(y));
        law_div_floor_sound(sa.spec_mul(sb), HIGH_WORD_DIVISOR as int, signed_value(x) * signed_value(y));
    } else {
        law_mul_sound(va, vb, x, y);
        if e is MulLo {
            law_modulo_sound(va.spec_mul(vb), LOW_WORD_MODULUS as int, x * y);
        } else {
            law_div_floor_sound(va.spec_mul(vb), HIGH_WORD_DIVISOR as int, x * y);
        }
    }
}

/// Soundness of the abstract evaluation on the expressions of `field_expr`:
/// on a concrete row that is a member of the abstract row, the concrete value
/// of an expression equals, in the field, a member of its abstract value. The
/// bitwise operators, the product words and the comparison read their
/// operands as field elements, and the word
/// operators their limbs as bytes that are field elements; those operands'
/// abstract values must lie among them (`bitwise_in_field`).
#[verifier::rlimit(80)]
pub proof fn law_eval_sound(e: ZEBRASymbolicExpr, env: EvalEnv, vals: ConcreteRow)
    requires
        env.prime > 0,
        field_expr(e),
        e.evaluable(env),
        row_member(vals, env),
        bitwise_in_field(e, env),
    ensures
        has_rep(e.value_of(env), conc_value(e, vals, env), env.prime as int),
    decreases e,
{
    let p = env.prime as int;
    let c = conc_value(e, vals, env);
    vstd::arithmetic::div_mod::lemma_small_mod(0, env.prime as nat);
    match e {
        ZEBRASymbolicExpr::Add(a, b) => {
            law_eval_sound(*a, env, vals);
            law_eval_sound(*b, env, vals);
            step_add(a.value_of(env), b.value_of(env), conc_value(*a, vals, env), conc_value(*b, vals, env), p);
        },
        ZEBRASymbolicExpr::Sub(a, b) => {
            law_eval_sound(*a, env, vals);
            law_eval_sound(*b, env, vals);
            step_sub(a.value_of(env), b.value_of(env), conc_value(*a, vals, env), conc_value(*b, vals, env), p);
        },
        ZEBRASymbolicExpr::Neg(a) => {
            law_eval_sound(*a, env, vals);
            step_neg(a.value_of(env), conc_value(*a, vals, env), p);
        },
        ZEBRASymbolicExpr::Mul(a, b) => {
            law_eval_sound(*a, env, vals);
            if a.value_of(env).spec_is_zero(p) == MayBeFlag::True {
                step_mul_zero(a.value_of(env), conc_value(*a, vals, env), conc_value(*b, vals, env), p);
            } else {
                law_eval_sound(*b, env, vals);
                step_mul(a.value_of(env), b.value_of(env), conc_value(*a, vals, env), conc_value(*b, vals, env), p);
            }
        },
        ZEBRASymbolicExpr::WhenNonZero(a, b) => {
            law_eval_sound(*a, env, vals);
            if a.value_of(env).spec_is_zero(p) != MayBeFlag::True {
                law_eval_sound(*b, env, vals);
            }
            step_when(true, a.value_of(env), b.value_of(env), conc_value(*a, vals, env), conc_value(*b, vals, env), env.prime, e.value_of(env), c);
        },
        ZEBRASymbolicExpr::WhenZero(a, b) => {
            law_eval_sound(*a, env, vals);
            if a.value_of(env).spec_is_zero(p) != MayBeFlag::False {
                law_eval_sound(*b, env, vals);
            }
            step_when(false, a.value_of(env), b.value_of(env), conc_value(*a, vals, env), conc_value(*b, vals, env), env.prime, e.value_of(env), c);
        },
        ZEBRASymbolicExpr::MulLo(a, b) | ZEBRASymbolicExpr::MulHiUU(a, b) | ZEBRASymbolicExpr::MulHiSS(a, b)
        | ZEBRASymbolicExpr::Lt(a, b) => {
            law_eval_sound(*a, env, vals);
            law_eval_sound(*b, env, vals);
            let va = a.value_of(env);
            let vb = b.value_of(env);
            let x = lemma_field_rep(va, conc_value(*a, vals, env), p);
            let y = lemma_field_rep(vb, conc_value(*b, vals, env), p);
            lemma_field_operator(e, va, vb, x, y, p);
            let r = e.value_of(env);
            assert(r.contains(c));
            assert(c - c == 0);
            assert(represents(r, c, c, p));
        },
        ZEBRASymbolicExpr::And(a, b) | ZEBRASymbolicExpr::Or(a, b) | ZEBRASymbolicExpr::Xor(a, b) => {
            law_eval_sound(*a, env, vals);
            law_eval_sound(*b, env, vals);
            let va = a.value_of(env);
            let vb = b.value_of(env);
            let x = lemma_field_rep(va, conc_value(*a, vals, env), p);
            let y = lemma_field_rep(vb, conc_value(*b, vals, env), p);
            let xi = x as i128;
            let yi = y as i128;
            assert(xi as int == x && yi as int == y);
            let r = e.value_of(env);
            let v = if e is And {
                law_bitand_sound(va, vb, xi, yi);
                (xi & yi) as int
            } else if e is Or {
                law_bitor_sound(va, vb, xi, yi);
                (xi | yi) as int
            } else {
                law_bitxor_sound(va, vb, xi, yi);
                (xi ^ yi) as int
            };
            assert(v == c);
            vstd::arithmetic::div_mod::lemma_small_mod(0, p as nat);
            assert(v - c == 0);
            assert(represents(r, v, c, p));
        },
        ZEBRASymbolicExpr::WordAddU(wb_e, wc_e)
        | ZEBRASymbolicExpr::WordSubU(wb_e, wc_e)
        | ZEBRASymbolicExpr::WordMul(wb_e, wc_e)
        | ZEBRASymbolicExpr::WordMulhu(wb_e, wc_e)
        | ZEBRASymbolicExpr::WordMulhs(wb_e, wc_e)
        | ZEBRASymbolicExpr::WordMulth(wb_e, wc_e)
        | ZEBRASymbolicExpr::WordMultuh(wb_e, wc_e)
        | ZEBRASymbolicExpr::WordDiv(wb_e, wc_e)
        | ZEBRASymbolicExpr::WordSrl(wb_e, wc_e)
        | ZEBRASymbolicExpr::WordLt(wb_e, wc_e)
        | ZEBRASymbolicExpr::WordSLe(wb_e, wc_e)
        | ZEBRASymbolicExpr::WordSLt(wb_e, wc_e)
        | ZEBRASymbolicExpr::WordAnd(wb_e, wc_e)
        | ZEBRASymbolicExpr::WordOr(wb_e, wc_e)
        | ZEBRASymbolicExpr::WordXOr(wb_e, wc_e)
        | ZEBRASymbolicExpr::WordEq(wb_e, wc_e)
        | ZEBRASymbolicExpr::WordNEq(wb_e, wc_e) => {
            let x = lemma_word_reps(wb_e, env, vals);
            let y = lemma_word_reps(wc_e, env, vals);
            let wb = ZEBRASymbolicExpr::word_value(wb_e, env);
            let wc = ZEBRASymbolicExpr::word_value(wc_e, env);
            let kind = word_node_kind(e);
            let r = e.value_of(env);
            assert(r == spec_word_kind(kind, wb, wc));
            assert(word_kind_ok(kind, wb, wc));
            lemma_word_kind_member(kind, wb, wc, x, y);
            let v = word_conc(kind, x, y);
            assert(v == c);
            vstd::arithmetic::div_mod::lemma_small_mod(0, p as nat);
            assert(v - c == 0);
            assert(represents(r, v, c, p));
        },
        _ => {
            lemma_leaf(e, env, vals);
        },
    }
}

/// The limbs of a word, each read as the field element it equals, lie in
/// their abstract limbs.
proof fn lemma_word_reps(w: ExprWord, env: EvalEnv, vals: ConcreteRow) -> (x: (int, int, int, int))
    requires
        env.prime > 0,
        field_expr(*w.l0) && field_expr(*w.l1) && field_expr(*w.l2) && field_expr(*w.l3),
        ZEBRASymbolicExpr::word_evaluable(w, env),
        row_member(vals, env),
        limb_in_field(*w.l0, env) && limb_in_field(*w.l1, env) && limb_in_field(*w.l2, env) && limb_in_field(*w.l3, env),
    ensures
        x == (conc_value(*w.l0, vals, env) % (env.prime as int), conc_value(*w.l1, vals, env) % (env.prime as int),
            conc_value(*w.l2, vals, env) % (env.prime as int), conc_value(*w.l3, vals, env) % (env.prime as int)),
        bytes_in_word(ZEBRASymbolicExpr::word_value(w, env), x),
        lows_nonneg(ZEBRASymbolicExpr::word_value(w, env)),
    decreases w,
{
    let p = env.prime as int;
    law_eval_sound(*w.l0, env, vals);
    law_eval_sound(*w.l1, env, vals);
    law_eval_sound(*w.l2, env, vals);
    law_eval_sound(*w.l3, env, vals);
    let x0 = lemma_field_rep(w.l0.value_of(env), conc_value(*w.l0, vals, env), p);
    let x1 = lemma_field_rep(w.l1.value_of(env), conc_value(*w.l1, vals, env), p);
    let x2 = lemma_field_rep(w.l2.value_of(env), conc_value(*w.l2, vals, env), p);
    let x3 = lemma_field_rep(w.l3.value_of(env), conc_value(*w.l3, vals, env), p);
    (x0, x1, x2, x3)
}

proof fn lemma_leaf(e: ZEBRASymbolicExpr, env: EvalEnv, vals: ConcreteRow)
    requires
        env.prime > 0,
        field_expr(e),
        e.evaluable(env),
        row_member(vals, env),
        e is IsFirstRow || e is IsTransition || e is IsLastRow || e is Constant || e is Variable,
    ensures
        has_rep(e.value_of(env), conc_value(e, vals, env), env.prime as int),
{
    let p = env.prime as int;
    let c = conc_value(e, vals, env);
    vstd::arithmetic::div_mod::lemma_small_mod(0, env.prime as nat);
    assert(c - c == 0);
    if let ZEBRASymbolicExpr::Variable(cell) = e {
        let i = cell.index as int;
        match cell.entry {
            ZEBRASymbolicEntry::Public => {
                assert(env.public.unwrap()[i].contains(vals.2->0[i]));
            },
            ZEBRASymbolicEntry::Main { is_curr } | ZEBRASymbolicEntry::Preprocessed { is_curr }
            | ZEBRASymbolicEntry::Permutation { is_curr } => {
                if is_curr {
                    assert(env.curr[i].contains(vals.0[i]));
                } else if vals.1 is Some {
                    assert(env.next.unwrap()[i].contains(vals.1->0[i]));
                }
            },
        }
    }
    assert(represents(e.value_of(env), c, c, p));
}

proof fn lemma_class_mod(x: int, c: int, p: int)
    requires
        p > 0,
        (x - c) % p == 0,
    ensures
        (x % p == 0) == (c % p == 0),
{
    vstd::arithmetic::div_mod::lemma_add_mod_noop(x - c, c, p);
    vstd::arithmetic::div_mod::lemma_sub_mod_noop(x, x - c, p);
    assert(x - (x - c) == c);
    assert(x - c + c == x);
    vstd::arithmetic::div_mod::lemma_mod_self_0(p);
    vstd::arithmetic::div_mod::lemma_small_mod(0, p as nat);
}

proof fn lemma_mul_class(x: int, a: int, y: int, b: int, p: int)
    requires
        p > 0,
        (x - a) % p == 0,
        (y - b) % p == 0,
    ensures
        (x * y - a * b) % p == 0,
{
    assert(x * y - a * b == (x - a) * y + a * (y - b)) by (nonlinear_arith);
    vstd::arithmetic::div_mod::lemma_mul_mod_noop_left(x - a, y, p);
    vstd::arithmetic::div_mod::lemma_mul_mod_noop_right(a, y - b, p);
    vstd::arithmetic::div_mod::lemma_add_mod_noop((x - a) * y, a * (y - b), p);
    vstd::arithmetic::div_mod::lemma_small_mod(0, p as nat);
    assert((0 * y) % p == 0);
    assert((a * 0) % p == 0);
}

/// The row predicates evaluate to their flags; a `WhenNonZero` whose
/// condition is surely zero, and a `WhenZero` whose condition is surely not,
/// evaluate to zero; a next-row cell of the last row evaluates to zero.
pub proof fn law_eval_selectors_and_guards(a: ZEBRASymbolicExpr, b: ZEBRASymbolicExpr, index: usize, env: EvalEnv)
    ensures
        ZEBRASymbolicExpr::IsFirstRow.value_of(env) == flag_iv(env.is_first_row),
        ZEBRASymbolicExpr::IsTransition.value_of(env) == flag_iv(env.is_transition),
        ZEBRASymbolicExpr::IsLastRow.value_of(env) == flag_iv(env.is_last_row),
        a.value_of(env).spec_is_zero(env.prime as int) == MayBeFlag::True ==> ZEBRASymbolicExpr::WhenNonZero(
            Box::new(a),
            Box::new(b),
        ).value_of(env) == zero_iv(),
        a.value_of(env).spec_is_zero(env.prime as int) == MayBeFlag::False ==> ZEBRASymbolicExpr::WhenZero(
            Box::new(a),
            Box::new(b),
        ).value_of(env) == zero_iv(),
        env.next is None ==> ZEBRASymbolicExpr::Variable(
            ZEBRASymbolicVal { entry: ZEBRASymbolicEntry::Main { is_curr: false }, index },
        ).value_of(env) == zero_iv(),
{
}

/// The boolean complement is sound on flags: for a value `x` in `{0, 1}`
/// that the operand's interval contains, `1 - x` lies in the complement (a
/// flag that is surely 1 flips to `[0, 0]`, one surely 0 to `[1, 1]`).
pub proof fn law_flip_sound(v: AbstractInterval, p: u32, x: int)
    requires
        p > 1,
        flip_ok(v, p),
        v.contains(x),
        x == 0 || x == 1,
    ensures
        spec_flip(v, p).contains(1 - x),
{
    let pp = p as int;
    vstd::arithmetic::div_mod::lemma_small_mod(1, p as nat);
    vstd::arithmetic::div_mod::lemma_small_mod(0, p as nat);
    law_is_zero_sound(v, pp, x);
    if v.spec_is_zero(pp) != MayBeFlag::True {
        law_sub_sound(one_iv(), v, 1, x);
        law_is_zero_sound(one_iv().spec_sub(v), pp, 1 - x);
    }
}

/// `Flip` of an expression evaluates soundly on flags: when the operand's
/// value contains `x` in `{0, 1}`, the value of `Flip` contains `1 - x`.
pub proof fn law_eval_flip_sound(a: ZEBRASymbolicExpr, env: EvalEnv, x: int)
    requires
        env.prime > 1,
        ZEBRASymbolicExpr::Flip(Box::new(a)).evaluable(env),
        a.value_of(env).contains(x),
        x == 0 || x == 1,
    ensures
        ZEBRASymbolicExpr::Flip(Box::new(a)).value_of(env).contains(1 - x),
{
    law_flip_sound(a.value_of(env), env.prime, x);
}

} // verus!
