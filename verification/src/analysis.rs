use vstd::prelude::*;
use std::collections::HashSet;

use crate::symbolic::{ExprWord, ZEBRASymbolicExpr, ZEBRASymbolicVal};

verus! {

broadcast use vstd::std_specs::hash::group_hash_axioms;

// ----------------------------------------------------------------------
// the columns an expression reads
// ----------------------------------------------------------------------

/// The column indices of every variable in the expression.
pub open spec fn cols_of(e: ZEBRASymbolicExpr) -> Set<usize>
    decreases e, 1nat,
{
    match e {
        ZEBRASymbolicExpr::Variable(v) => set![v.index],
        ZEBRASymbolicExpr::IsFirstRow | ZEBRASymbolicExpr::IsTransition
        | ZEBRASymbolicExpr::IsLastRow | ZEBRASymbolicExpr::Constant(_) => Set::empty(),
        ZEBRASymbolicExpr::Msb(a) | ZEBRASymbolicExpr::Neg(a) | ZEBRASymbolicExpr::Flip(a)
        | ZEBRASymbolicExpr::KoalaBearRange(a) | ZEBRASymbolicExpr::BabyBearRange(a) => cols_of(*a),
        ZEBRASymbolicExpr::WhenNonZero(a, b) | ZEBRASymbolicExpr::WhenZero(a, b)
        | ZEBRASymbolicExpr::Add(a, b) | ZEBRASymbolicExpr::Sub(a, b)
        | ZEBRASymbolicExpr::Mul(a, b) | ZEBRASymbolicExpr::MulLo(a, b)
        | ZEBRASymbolicExpr::MulHiSS(a, b) | ZEBRASymbolicExpr::MulHiUU(a, b)
        | ZEBRASymbolicExpr::And(a, b) | ZEBRASymbolicExpr::Or(a, b)
        | ZEBRASymbolicExpr::Xor(a, b) | ZEBRASymbolicExpr::SRL(a, b)
        | ZEBRASymbolicExpr::SRLCarry(a, b) | ZEBRASymbolicExpr::Lt(a, b) => cols_of(*a).union(
            cols_of(*b),
        ),
        ZEBRASymbolicExpr::WordAddU(b, c)
        | ZEBRASymbolicExpr::WordSubU(b, c)
        | ZEBRASymbolicExpr::WordMul(b, c)
        | ZEBRASymbolicExpr::WordMulhu(b, c)
        | ZEBRASymbolicExpr::WordMulhs(b, c)
        | ZEBRASymbolicExpr::WordMultl(b, c)
        | ZEBRASymbolicExpr::WordMulth(b, c)
        | ZEBRASymbolicExpr::WordMultul(b, c)
        | ZEBRASymbolicExpr::WordMultuh(b, c)
        | ZEBRASymbolicExpr::WordDiv(b, c)
        | ZEBRASymbolicExpr::WordSDiv(b, c)
        | ZEBRASymbolicExpr::WordLt(b, c)
        | ZEBRASymbolicExpr::WordSLe(b, c)
        | ZEBRASymbolicExpr::WordSLt(b, c)
        | ZEBRASymbolicExpr::WordAnd(b, c)
        | ZEBRASymbolicExpr::WordOr(b, c)
        | ZEBRASymbolicExpr::WordXOr(b, c)
        | ZEBRASymbolicExpr::WordEq(b, c)
        | ZEBRASymbolicExpr::WordNEq(b, c)
        | ZEBRASymbolicExpr::WordSrl(b, c) => word_cols(b).union(word_cols(c)),
    }
}

/// The column indices of every variable in the four limbs.
pub open spec fn word_cols(w: ExprWord) -> Set<usize>
    decreases w, 0nat,
{
    cols_of(*w.l0).union(cols_of(*w.l1)).union(cols_of(*w.l2)).union(cols_of(*w.l3))
}

/// The column indices of the variables that the arithmetic, bitwise and
/// comparison nodes reach; conditionals, products of the word
/// multiplier, range checks and word operators are not entered.
pub open spec fn simple_cols_of(e: ZEBRASymbolicExpr) -> Set<usize>
    decreases e,
{
    match e {
        ZEBRASymbolicExpr::Variable(v) => set![v.index],
        ZEBRASymbolicExpr::Neg(a) | ZEBRASymbolicExpr::Msb(a) | ZEBRASymbolicExpr::Flip(a) => simple_cols_of(*a),
        ZEBRASymbolicExpr::Add(a, b) | ZEBRASymbolicExpr::Sub(a, b)
        | ZEBRASymbolicExpr::Mul(a, b) | ZEBRASymbolicExpr::And(a, b)
        | ZEBRASymbolicExpr::Or(a, b) | ZEBRASymbolicExpr::Xor(a, b)
        | ZEBRASymbolicExpr::Lt(a, b) | ZEBRASymbolicExpr::SRL(a, b)
        | ZEBRASymbolicExpr::SRLCarry(a, b) => simple_cols_of(*a).union(simple_cols_of(*b)),
        _ => Set::empty(),
    }
}

/// The columns `gather_vars_simple` finds are among those `gather_cols`
/// finds.
pub proof fn law_simple_cols_within_cols(e: ZEBRASymbolicExpr)
    ensures
        simple_cols_of(e).subset_of(cols_of(e)),
    decreases e,
{
    match e {
        ZEBRASymbolicExpr::Neg(a) | ZEBRASymbolicExpr::Msb(a) | ZEBRASymbolicExpr::Flip(a) => {
            law_simple_cols_within_cols(*a);
        },
        ZEBRASymbolicExpr::Add(a, b) | ZEBRASymbolicExpr::Sub(a, b)
        | ZEBRASymbolicExpr::Mul(a, b) | ZEBRASymbolicExpr::And(a, b)
        | ZEBRASymbolicExpr::Or(a, b) | ZEBRASymbolicExpr::Xor(a, b)
        | ZEBRASymbolicExpr::Lt(a, b) | ZEBRASymbolicExpr::SRL(a, b)
        | ZEBRASymbolicExpr::SRLCarry(a, b) => {
            law_simple_cols_within_cols(*a);
            law_simple_cols_within_cols(*b);
        },
        _ => {},
    }
}

/// Adds to `memo` the column index of every variable reached through
/// additions, subtractions, products, negations, bitwise operators,
/// comparisons, shifts, sign bits and flips.
pub fn gather_vars_simple(expr: &ZEBRASymbolicExpr, memo: &mut HashSet<usize>)
    ensures
        final(memo)@ == old(memo)@.union(simple_cols_of(*expr)),
    decreases *expr,
{
    match expr {
        ZEBRASymbolicExpr::Variable(v) => {
            memo.insert(v.index);
        },
        ZEBRASymbolicExpr::Neg(a) | ZEBRASymbolicExpr::Msb(a) | ZEBRASymbolicExpr::Flip(a) => {
            gather_vars_simple(a, memo);
        },
        ZEBRASymbolicExpr::Add(a, b) | ZEBRASymbolicExpr::Sub(a, b)
        | ZEBRASymbolicExpr::Mul(a, b) | ZEBRASymbolicExpr::And(a, b)
        | ZEBRASymbolicExpr::Or(a, b) | ZEBRASymbolicExpr::Xor(a, b)
        | ZEBRASymbolicExpr::Lt(a, b) | ZEBRASymbolicExpr::SRL(a, b)
        | ZEBRASymbolicExpr::SRLCarry(a, b) => {
            gather_vars_simple(a, memo);
            gather_vars_simple(b, memo);
        },
        _ => {},
    }
    proof {
        assert(final(memo)@ =~= old(memo)@.union(simple_cols_of(*expr)));
    }
}
/// Adds to `cols` the column index of every variable in the expression,
/// word limbs included.
pub fn gather_cols(expr: &ZEBRASymbolicExpr, cols: &mut HashSet<usize>)
    ensures
        final(cols)@ == old(cols)@.union(cols_of(*expr)),
    decreases *expr, 1nat,
{
    match expr {
        ZEBRASymbolicExpr::Variable(v) => {
            cols.insert(v.index);
        },
        ZEBRASymbolicExpr::IsFirstRow
        | ZEBRASymbolicExpr::IsTransition
        | ZEBRASymbolicExpr::IsLastRow
        | ZEBRASymbolicExpr::Constant(_) => {},
        ZEBRASymbolicExpr::Msb(a)
        | ZEBRASymbolicExpr::Neg(a)
        | ZEBRASymbolicExpr::Flip(a)
        | ZEBRASymbolicExpr::KoalaBearRange(a)
        | ZEBRASymbolicExpr::BabyBearRange(a) => {
            gather_cols(a, cols);
        },
        ZEBRASymbolicExpr::WhenNonZero(a, b)
        | ZEBRASymbolicExpr::WhenZero(a, b)
        | ZEBRASymbolicExpr::Add(a, b)
        | ZEBRASymbolicExpr::Sub(a, b)
        | ZEBRASymbolicExpr::Mul(a, b)
        | ZEBRASymbolicExpr::MulLo(a, b)
        | ZEBRASymbolicExpr::MulHiSS(a, b)
        | ZEBRASymbolicExpr::MulHiUU(a, b)
        | ZEBRASymbolicExpr::And(a, b)
        | ZEBRASymbolicExpr::Or(a, b)
        | ZEBRASymbolicExpr::Xor(a, b)
        | ZEBRASymbolicExpr::SRL(a, b)
        | ZEBRASymbolicExpr::SRLCarry(a, b)
        | ZEBRASymbolicExpr::Lt(a, b) => {
            gather_cols(a, cols);
            gather_cols(b, cols);
        },
        ZEBRASymbolicExpr::WordAddU(b, c)
        | ZEBRASymbolicExpr::WordSubU(b, c)
        | ZEBRASymbolicExpr::WordMul(b, c)
        | ZEBRASymbolicExpr::WordMulhu(b, c)
        | ZEBRASymbolicExpr::WordMulhs(b, c)
        | ZEBRASymbolicExpr::WordMultl(b, c)
        | ZEBRASymbolicExpr::WordMulth(b, c)
        | ZEBRASymbolicExpr::WordMultul(b, c)
        | ZEBRASymbolicExpr::WordMultuh(b, c)
        | ZEBRASymbolicExpr::WordDiv(b, c)
        | ZEBRASymbolicExpr::WordSDiv(b, c)
        | ZEBRASymbolicExpr::WordLt(b, c)
        | ZEBRASymbolicExpr::WordSLe(b, c)
        | ZEBRASymbolicExpr::WordSLt(b, c)
        | ZEBRASymbolicExpr::WordAnd(b, c)
        | ZEBRASymbolicExpr::WordOr(b, c)
        | ZEBRASymbolicExpr::WordXOr(b, c)
        | ZEBRASymbolicExpr::WordEq(b, c)
        | ZEBRASymbolicExpr::WordNEq(b, c)
        | ZEBRASymbolicExpr::WordSrl(b, c) => {
            gather_word_cols(b, cols);
            gather_word_cols(c, cols);
        },
    }
    proof {
        assert(final(cols)@ =~= old(cols)@.union(cols_of(*expr)));
    }
}

fn gather_word_cols(w: &ExprWord, cols: &mut HashSet<usize>)
    ensures
        final(cols)@ == old(cols)@.union(word_cols(*w)),
    decreases *w, 0nat,
{
    gather_cols(&w.l0, cols);
    gather_cols(&w.l1, cols);
    gather_cols(&w.l2, cols);
    gather_cols(&w.l3, cols);
    proof {
        assert(final(cols)@ =~= old(cols)@.union(word_cols(*w)));
    }
}

// ----------------------------------------------------------------------
// (row, column) pairs
// ----------------------------------------------------------------------

/// The `(row_index, column)` pairs of the variables reached through
/// additions, subtractions, products, negations, bitwise operators and
/// comparisons.
pub open spec fn row_vars_of(row_index: usize, e: ZEBRASymbolicExpr) -> Set<(usize, usize)>
    decreases e,
{
    match e {
        ZEBRASymbolicExpr::Variable(v) => set![(row_index, v.index)],
        ZEBRASymbolicExpr::Neg(a) => row_vars_of(row_index, *a),
        ZEBRASymbolicExpr::Add(a, b) | ZEBRASymbolicExpr::Sub(a, b)
        | ZEBRASymbolicExpr::Mul(a, b) | ZEBRASymbolicExpr::And(a, b)
        | ZEBRASymbolicExpr::Or(a, b) | ZEBRASymbolicExpr::Xor(a, b)
        | ZEBRASymbolicExpr::Lt(a, b) => row_vars_of(row_index, *a).union(row_vars_of(row_index, *b)),
        _ => Set::empty(),
    }
}

fn insert_pair(memo: &mut Vec<(usize, usize)>, p: (usize, usize))
    requires
        old(memo)@.no_duplicates(),
    ensures
        final(memo)@.no_duplicates(),
        final(memo)@.to_set() == old(memo)@.to_set().insert(p),
{
    let mut i: usize = 0;
    while i < memo.len()
        invariant
            i <= memo.len(),
            memo@ == old(memo)@,
            memo@.no_duplicates(),
            forall|j: int| 0 <= j < i ==> memo@[j] != p,
        decreases memo.len() - i,
    {
        if memo[i].0 == p.0 && memo[i].1 == p.1 {
            proof {
                assert(memo@[i as int] == p);
                assert(memo@.to_set() =~= memo@.to_set().insert(p));
                assert(memo@.no_duplicates());
            }
            return;
        }
        i += 1;
    }
    let ghost before = memo@;
    memo.push(p);
    proof {
        assert(memo@ == before.push(p));
        assert forall|q: (usize, usize)| #[trigger] memo@.to_set().contains(q) == before.to_set().insert(p).contains(q) by {
            if q == p {
                assert(memo@[before.len() as int] == p);
            } else if before.contains(q) {
                let k = choose|k: int| 0 <= k < before.len() && before[k] == q;
                assert(memo@[k] == q);
            } else if memo@.contains(q) {
                let k = choose|k: int| 0 <= k < memo@.len() && memo@[k] == q;
                assert(before[k] == q);
            }
        }
        assert(memo@.to_set() =~= before.to_set().insert(p));
        assert forall|a: int, b: int| 0 <= a < memo@.len() && 0 <= b < memo@.len() && a != b implies memo@[a] != memo@[b] by {
            if a < before.len() && b < before.len() {
                assert(before[a] != before[b]);
            } else if a == before.len() {
                assert(before[b] != p);
            } else {
                assert(before[a] != p);
            }
        }
    }
}

/// Adds to `memo` the pair `(row_index, column)` of every variable reached
/// through additions, subtractions, products, negations, bitwise operators
/// and comparisons; `memo` holds each pair once.
pub fn gather_vars(row_index: usize, expr: &ZEBRASymbolicExpr, memo: &mut Vec<(usize, usize)>)
    requires
        old(memo)@.no_duplicates(),
    ensures
        final(memo)@.no_duplicates(),
        final(memo)@.to_set() == old(memo)@.to_set().union(row_vars_of(row_index, *expr)),
    decreases *expr,
{
    match expr {
        ZEBRASymbolicExpr::Variable(v) => {
            insert_pair(memo, (row_index, v.index));
        },
        ZEBRASymbolicExpr::Neg(a) => {
            gather_vars(row_index, a, memo);
        },
        ZEBRASymbolicExpr::Add(a, b) | ZEBRASymbolicExpr::Sub(a, b)
        | ZEBRASymbolicExpr::Mul(a, b) | ZEBRASymbolicExpr::And(a, b)
        | ZEBRASymbolicExpr::Or(a, b) | ZEBRASymbolicExpr::Xor(a, b)
        | ZEBRASymbolicExpr::Lt(a, b) => {
            gather_vars(row_index, a, memo);
            gather_vars(row_index, b, memo);
        },
        _ => {},
    }
    proof {
        assert(final(memo)@.to_set() =~= old(memo)@.to_set().union(row_vars_of(row_index, *expr)));
    }
}

// ----------------------------------------------------------------------
// operation counts
// ----------------------------------------------------------------------

/// The number of operation nodes: each unary, binary and conditional node
/// counts one, a word operator counts only what its limbs count.
pub open spec fn arith_ops(e: ZEBRASymbolicExpr) -> nat
    decreases e, 1nat,
{
    match e {
        ZEBRASymbolicExpr::Variable(_) | ZEBRASymbolicExpr::IsFirstRow
        | ZEBRASymbolicExpr::IsTransition
        | ZEBRASymbolicExpr::IsLastRow
        | ZEBRASymbolicExpr::Constant(_) => 0,
        ZEBRASymbolicExpr::Msb(a)
        | ZEBRASymbolicExpr::Neg(a)
        | ZEBRASymbolicExpr::Flip(a)
        | ZEBRASymbolicExpr::KoalaBearRange(a)
        | ZEBRASymbolicExpr::BabyBearRange(a) => 1 + arith_ops(*a),
        ZEBRASymbolicExpr::WhenNonZero(a, b)
        | ZEBRASymbolicExpr::WhenZero(a, b)
        | ZEBRASymbolicExpr::Add(a, b)
        | ZEBRASymbolicExpr::Sub(a, b)
        | ZEBRASymbolicExpr::Mul(a, b)
        | ZEBRASymbolicExpr::MulLo(a, b)
        | ZEBRASymbolicExpr::MulHiSS(a, b)
        | ZEBRASymbolicExpr::MulHiUU(a, b)
        | ZEBRASymbolicExpr::And(a, b)
        | ZEBRASymbolicExpr::Or(a, b)
        | ZEBRASymbolicExpr::Xor(a, b)
        | ZEBRASymbolicExpr::SRL(a, b)
        | ZEBRASymbolicExpr::SRLCarry(a, b)
        | ZEBRASymbolicExpr::Lt(a, b) => 1 + arith_ops(*a) + arith_ops(*b),
        ZEBRASymbolicExpr::WordAddU(b, c)
        | ZEBRASymbolicExpr::WordSubU(b, c)
        | ZEBRASymbolicExpr::WordMul(b, c)
        | ZEBRASymbolicExpr::WordMulhu(b, c)
        | ZEBRASymbolicExpr::WordMulhs(b, c)
        | ZEBRASymbolicExpr::WordMultl(b, c)
        | ZEBRASymbolicExpr::WordMulth(b, c)
        | ZEBRASymbolicExpr::WordMultul(b, c)
        | ZEBRASymbolicExpr::WordMultuh(b, c)
        | ZEBRASymbolicExpr::WordDiv(b, c)
        | ZEBRASymbolicExpr::WordSDiv(b, c)
        | ZEBRASymbolicExpr::WordLt(b, c)
        | ZEBRASymbolicExpr::WordSLe(b, c)
        | ZEBRASymbolicExpr::WordSLt(b, c)
        | ZEBRASymbolicExpr::WordAnd(b, c)
        | ZEBRASymbolicExpr::WordOr(b, c)
        | ZEBRASymbolicExpr::WordXOr(b, c)
        | ZEBRASymbolicExpr::WordEq(b, c)
        | ZEBRASymbolicExpr::WordNEq(b, c)
        | ZEBRASymbolicExpr::WordSrl(b, c) => word_arith_ops(b) + word_arith_ops(c),
    }
}

pub open spec fn word_arith_ops(w: ExprWord) -> nat
    decreases w, 0nat,
{
    arith_ops(*w.l0) + arith_ops(*w.l1) + arith_ops(*w.l2) + arith_ops(*w.l3)
}

/// Counts the operation nodes of the expression.
pub fn count_arith_ops(expr: &ZEBRASymbolicExpr) -> (r: usize)
    requires
        arith_ops(*expr) <= usize::MAX,
    ensures
        r == arith_ops(*expr),
    decreases *expr, 1nat,
{
    match expr {
        ZEBRASymbolicExpr::Variable(_) | ZEBRASymbolicExpr::IsFirstRow
        | ZEBRASymbolicExpr::IsTransition
        | ZEBRASymbolicExpr::IsLastRow
        | ZEBRASymbolicExpr::Constant(_) => 0,
        ZEBRASymbolicExpr::Msb(a)
        | ZEBRASymbolicExpr::Neg(a)
        | ZEBRASymbolicExpr::Flip(a)
        | ZEBRASymbolicExpr::KoalaBearRange(a)
        | ZEBRASymbolicExpr::BabyBearRange(a) => 1 + count_arith_ops(a),
        ZEBRASymbolicExpr::WhenNonZero(a, b)
        | ZEBRASymbolicExpr::WhenZero(a, b)
        | ZEBRASymbolicExpr::Add(a, b)
        | ZEBRASymbolicExpr::Sub(a, b)
        | ZEBRASymbolicExpr::Mul(a, b)
        | ZEBRASymbolicExpr::MulLo(a, b)
        | ZEBRASymbolicExpr::MulHiSS(a, b)
        | ZEBRASymbolicExpr::MulHiUU(a, b)
        | ZEBRASymbolicExpr::And(a, b)
        | ZEBRASymbolicExpr::Or(a, b)
        | ZEBRASymbolicExpr::Xor(a, b)
        | ZEBRASymbolicExpr::SRL(a, b)
        | ZEBRASymbolicExpr::SRLCarry(a, b)
        | ZEBRASymbolicExpr::Lt(a, b) => 1 + count_arith_ops(a) + count_arith_ops(b),
        ZEBRASymbolicExpr::WordAddU(b, c)
        | ZEBRASymbolicExpr::WordSubU(b, c)
        | ZEBRASymbolicExpr::WordMul(b, c)
        | ZEBRASymbolicExpr::WordMulhu(b, c)
        | ZEBRASymbolicExpr::WordMulhs(b, c)
        | ZEBRASymbolicExpr::WordMultl(b, c)
        | ZEBRASymbolicExpr::WordMulth(b, c)
        | ZEBRASymbolicExpr::WordMultul(b, c)
        | ZEBRASymbolicExpr::WordMultuh(b, c)
        | ZEBRASymbolicExpr::WordDiv(b, c)
        | ZEBRASymbolicExpr::WordSDiv(b, c)
        | ZEBRASymbolicExpr::WordLt(b, c)
        | ZEBRASymbolicExpr::WordSLe(b, c)
        | ZEBRASymbolicExpr::WordSLt(b, c)
        | ZEBRASymbolicExpr::WordAnd(b, c)
        | ZEBRASymbolicExpr::WordOr(b, c)
        | ZEBRASymbolicExpr::WordXOr(b, c)
        | ZEBRASymbolicExpr::WordEq(b, c)
        | ZEBRASymbolicExpr::WordNEq(b, c)
        | ZEBRASymbolicExpr::WordSrl(b, c) => count_word_arith_ops(b) + count_word_arith_ops(c),
    }
}

fn count_word_arith_ops(w: &ExprWord) -> (r: usize)
    requires
        word_arith_ops(*w) <= usize::MAX,
    ensures
        r == word_arith_ops(*w),
    decreases *w, 0nat,
{
    count_arith_ops(&w.l0) + count_arith_ops(&w.l1) + count_arith_ops(&w.l2) + count_arith_ops(&w.l3)
}



// ----------------------------------------------------------------------
// the cells an expression reads
// ----------------------------------------------------------------------

/// Every variable of the expression, word limbs included.
pub open spec fn vals_of(e: ZEBRASymbolicExpr) -> Set<ZEBRASymbolicVal>
    decreases e, 1nat,
{
    match e {
        ZEBRASymbolicExpr::Variable(v) => set![v],
        ZEBRASymbolicExpr::IsFirstRow
        | ZEBRASymbolicExpr::IsTransition
        | ZEBRASymbolicExpr::IsLastRow
        | ZEBRASymbolicExpr::Constant(_) => Set::empty(),
        ZEBRASymbolicExpr::Msb(a)
        | ZEBRASymbolicExpr::Neg(a)
        | ZEBRASymbolicExpr::Flip(a)
        | ZEBRASymbolicExpr::KoalaBearRange(a)
        | ZEBRASymbolicExpr::BabyBearRange(a) => vals_of(*a),
        ZEBRASymbolicExpr::WhenNonZero(a, b)
        | ZEBRASymbolicExpr::WhenZero(a, b)
        | ZEBRASymbolicExpr::Add(a, b)
        | ZEBRASymbolicExpr::Sub(a, b)
        | ZEBRASymbolicExpr::Mul(a, b)
        | ZEBRASymbolicExpr::MulLo(a, b)
        | ZEBRASymbolicExpr::MulHiSS(a, b)
        | ZEBRASymbolicExpr::MulHiUU(a, b)
        | ZEBRASymbolicExpr::And(a, b)
        | ZEBRASymbolicExpr::Or(a, b)
        | ZEBRASymbolicExpr::Xor(a, b)
        | ZEBRASymbolicExpr::SRL(a, b)
        | ZEBRASymbolicExpr::SRLCarry(a, b)
        | ZEBRASymbolicExpr::Lt(a, b) => vals_of(*a).union(vals_of(*b)),
        ZEBRASymbolicExpr::WordAddU(b, c)
        | ZEBRASymbolicExpr::WordSubU(b, c)
        | ZEBRASymbolicExpr::WordMul(b, c)
        | ZEBRASymbolicExpr::WordMulhu(b, c)
        | ZEBRASymbolicExpr::WordMulhs(b, c)
        | ZEBRASymbolicExpr::WordMultl(b, c)
        | ZEBRASymbolicExpr::WordMulth(b, c)
        | ZEBRASymbolicExpr::WordMultul(b, c)
        | ZEBRASymbolicExpr::WordMultuh(b, c)
        | ZEBRASymbolicExpr::WordDiv(b, c)
        | ZEBRASymbolicExpr::WordSDiv(b, c)
        | ZEBRASymbolicExpr::WordLt(b, c)
        | ZEBRASymbolicExpr::WordSLe(b, c)
        | ZEBRASymbolicExpr::WordSLt(b, c)
        | ZEBRASymbolicExpr::WordAnd(b, c)
        | ZEBRASymbolicExpr::WordOr(b, c)
        | ZEBRASymbolicExpr::WordXOr(b, c)
        | ZEBRASymbolicExpr::WordEq(b, c)
        | ZEBRASymbolicExpr::WordNEq(b, c)
        | ZEBRASymbolicExpr::WordSrl(b, c) => word_vals(b).union(word_vals(c)),
    }
}

pub open spec fn word_vals(w: ExprWord) -> Set<ZEBRASymbolicVal>
    decreases w, 0nat,
{
    vals_of(*w.l0).union(vals_of(*w.l1)).union(vals_of(*w.l2)).union(vals_of(*w.l3))
}

fn insert_val(memo: &mut Vec<ZEBRASymbolicVal>, p: ZEBRASymbolicVal)
    requires
        old(memo)@.no_duplicates(),
    ensures
        final(memo)@.no_duplicates(),
        final(memo)@.to_set() == old(memo)@.to_set().insert(p),
{
    let mut i: usize = 0;
    while i < memo.len()
        invariant
            i <= memo.len(),
            memo@ == old(memo)@,
            memo@.no_duplicates(),
            forall|j: int| 0 <= j < i ==> memo@[j] != p,
        decreases memo.len() - i,
    {
        if memo[i] == p {
            proof {
                assert(memo@[i as int] == p);
                assert(memo@.to_set() =~= memo@.to_set().insert(p));
                assert(memo@.no_duplicates());
            }
            return;
        }
        i += 1;
    }
    let ghost before = memo@;
    memo.push(p);
    proof {
        assert(memo@ == before.push(p));
        assert forall|q: ZEBRASymbolicVal| #[trigger] memo@.to_set().contains(q) == before.to_set().insert(p).contains(q) by {
            if q == p {
                assert(memo@[before.len() as int] == p);
            } else if before.contains(q) {
                let k = choose|k: int| 0 <= k < before.len() && before[k] == q;
                assert(memo@[k] == q);
            } else if memo@.contains(q) {
                let k = choose|k: int| 0 <= k < memo@.len() && memo@[k] == q;
                assert(before[k] == q);
            }
        }
        assert(memo@.to_set() =~= before.to_set().insert(p));
        assert forall|a: int, b: int| 0 <= a < memo@.len() && 0 <= b < memo@.len() && a != b implies memo@[a] != memo@[b] by {
            if a < before.len() && b < before.len() {
                assert(before[a] != before[b]);
            } else if a == before.len() {
                assert(before[b] != p);
            } else {
                assert(before[a] != p);
            }
        }
    }
}


/// Adds to `neighbors` every variable of the expression, each once.
pub fn gather_neighbors(expr: &ZEBRASymbolicExpr, neighbors: &mut Vec<ZEBRASymbolicVal>)
    requires
        old(neighbors)@.no_duplicates(),
    ensures
        final(neighbors)@.no_duplicates(),
        final(neighbors)@.to_set() == old(neighbors)@.to_set().union(vals_of(*expr)),
    decreases *expr, 1nat,
{
    match expr {
        ZEBRASymbolicExpr::Variable(v) => {
            insert_val(neighbors, *v);
        },
        ZEBRASymbolicExpr::IsFirstRow
        | ZEBRASymbolicExpr::IsTransition
        | ZEBRASymbolicExpr::IsLastRow
        | ZEBRASymbolicExpr::Constant(_) => {},
        ZEBRASymbolicExpr::Msb(a)
        | ZEBRASymbolicExpr::Neg(a)
        | ZEBRASymbolicExpr::Flip(a)
        | ZEBRASymbolicExpr::KoalaBearRange(a)
        | ZEBRASymbolicExpr::BabyBearRange(a) => {
            gather_neighbors(a, neighbors);
        },
        ZEBRASymbolicExpr::WhenNonZero(a, b)
        | ZEBRASymbolicExpr::WhenZero(a, b)
        | ZEBRASymbolicExpr::Add(a, b)
        | ZEBRASymbolicExpr::Sub(a, b)
        | ZEBRASymbolicExpr::Mul(a, b)
        | ZEBRASymbolicExpr::MulLo(a, b)
        | ZEBRASymbolicExpr::MulHiSS(a, b)
        | ZEBRASymbolicExpr::MulHiUU(a, b)
        | ZEBRASymbolicExpr::And(a, b)
        | ZEBRASymbolicExpr::Or(a, b)
        | ZEBRASymbolicExpr::Xor(a, b)
        | ZEBRASymbolicExpr::SRL(a, b)
        | ZEBRASymbolicExpr::SRLCarry(a, b)
        | ZEBRASymbolicExpr::Lt(a, b) => {
            gather_neighbors(a, neighbors);
            gather_neighbors(b, neighbors);
        },
        ZEBRASymbolicExpr::WordAddU(b, c)
        | ZEBRASymbolicExpr::WordSubU(b, c)
        | ZEBRASymbolicExpr::WordMul(b, c)
        | ZEBRASymbolicExpr::WordMulhu(b, c)
        | ZEBRASymbolicExpr::WordMulhs(b, c)
        | ZEBRASymbolicExpr::WordMultl(b, c)
        | ZEBRASymbolicExpr::WordMulth(b, c)
        | ZEBRASymbolicExpr::WordMultul(b, c)
        | ZEBRASymbolicExpr::WordMultuh(b, c)
        | ZEBRASymbolicExpr::WordDiv(b, c)
        | ZEBRASymbolicExpr::WordSDiv(b, c)
        | ZEBRASymbolicExpr::WordLt(b, c)
        | ZEBRASymbolicExpr::WordSLe(b, c)
        | ZEBRASymbolicExpr::WordSLt(b, c)
        | ZEBRASymbolicExpr::WordAnd(b, c)
        | ZEBRASymbolicExpr::WordOr(b, c)
        | ZEBRASymbolicExpr::WordXOr(b, c)
        | ZEBRASymbolicExpr::WordEq(b, c)
        | ZEBRASymbolicExpr::WordNEq(b, c)
        | ZEBRASymbolicExpr::WordSrl(b, c) => {
            gather_word_neighbors(b, neighbors);
            gather_word_neighbors(c, neighbors);
        },
    }
    proof {
        assert(final(neighbors)@.to_set() =~= old(neighbors)@.to_set().union(vals_of(*expr)));
    }
}

fn gather_word_neighbors(w: &ExprWord, neighbors: &mut Vec<ZEBRASymbolicVal>)
    requires
        old(neighbors)@.no_duplicates(),
    ensures
        final(neighbors)@.no_duplicates(),
        final(neighbors)@.to_set() == old(neighbors)@.to_set().union(word_vals(*w)),
    decreases *w, 0nat,
{
    gather_neighbors(&w.l0, neighbors);
    gather_neighbors(&w.l1, neighbors);
    gather_neighbors(&w.l2, neighbors);
    gather_neighbors(&w.l3, neighbors);
    proof {
        assert(final(neighbors)@.to_set() =~= old(neighbors)@.to_set().union(word_vals(*w)));
    }
}

// ----------------------------------------------------------------------
// operation counts with shared subexpressions counted once
// ----------------------------------------------------------------------

/// Whether two expressions are the same tree.
pub fn same_expr(a: &ZEBRASymbolicExpr, b: &ZEBRASymbolicExpr) -> (r: bool)
    ensures
        r == (*a == *b),
    decreases *a, 1nat,
{
    match (a, b) {
        (ZEBRASymbolicExpr::IsFirstRow, ZEBRASymbolicExpr::IsFirstRow) => true,
        (ZEBRASymbolicExpr::IsTransition, ZEBRASymbolicExpr::IsTransition) => true,
        (ZEBRASymbolicExpr::IsLastRow, ZEBRASymbolicExpr::IsLastRow) => true,
        (ZEBRASymbolicExpr::Constant(x), ZEBRASymbolicExpr::Constant(y)) => *x == *y,
        (ZEBRASymbolicExpr::Variable(x), ZEBRASymbolicExpr::Variable(y)) => *x == *y,
        (ZEBRASymbolicExpr::Msb(a1), ZEBRASymbolicExpr::Msb(b1)) => same_expr(a1, b1),
        (ZEBRASymbolicExpr::Neg(a1), ZEBRASymbolicExpr::Neg(b1)) => same_expr(a1, b1),
        (ZEBRASymbolicExpr::Flip(a1), ZEBRASymbolicExpr::Flip(b1)) => same_expr(a1, b1),
        (ZEBRASymbolicExpr::KoalaBearRange(a1), ZEBRASymbolicExpr::KoalaBearRange(b1)) => same_expr(a1, b1),
        (ZEBRASymbolicExpr::BabyBearRange(a1), ZEBRASymbolicExpr::BabyBearRange(b1)) => same_expr(a1, b1),
        (ZEBRASymbolicExpr::WhenNonZero(a1, a2), ZEBRASymbolicExpr::WhenNonZero(b1, b2)) => same_expr(a1, b1) && same_expr(a2, b2),
        (ZEBRASymbolicExpr::WhenZero(a1, a2), ZEBRASymbolicExpr::WhenZero(b1, b2)) => same_expr(a1, b1) && same_expr(a2, b2),
        (ZEBRASymbolicExpr::Add(a1, a2), ZEBRASymbolicExpr::Add(b1, b2)) => same_expr(a1, b1) && same_expr(a2, b2),
        (ZEBRASymbolicExpr::Sub(a1, a2), ZEBRASymbolicExpr::Sub(b1, b2)) => same_expr(a1, b1) && same_expr(a2, b2),
        (ZEBRASymbolicExpr::Mul(a1, a2), ZEBRASymbolicExpr::Mul(b1, b2)) => same_expr(a1, b1) && same_expr(a2, b2),
        (ZEBRASymbolicExpr::MulLo(a1, a2), ZEBRASymbolicExpr::MulLo(b1, b2)) => same_expr(a1, b1) && same_expr(a2, b2),
        (ZEBRASymbolicExpr::MulHiSS(a1, a2), ZEBRASymbolicExpr::MulHiSS(b1, b2)) => same_expr(a1, b1) && same_expr(a2, b2),
        (ZEBRASymbolicExpr::MulHiUU(a1, a2), ZEBRASymbolicExpr::MulHiUU(b1, b2)) => same_expr(a1, b1) && same_expr(a2, b2),
        (ZEBRASymbolicExpr::And(a1, a2), ZEBRASymbolicExpr::And(b1, b2)) => same_expr(a1, b1) && same_expr(a2, b2),
        (ZEBRASymbolicExpr::Or(a1, a2), ZEBRASymbolicExpr::Or(b1, b2)) => same_expr(a1, b1) && same_expr(a2, b2),
        (ZEBRASymbolicExpr::Xor(a1, a2), ZEBRASymbolicExpr::Xor(b1, b2)) => same_expr(a1, b1) && same_expr(a2, b2),
        (ZEBRASymbolicExpr::SRL(a1, a2), ZEBRASymbolicExpr::SRL(b1, b2)) => same_expr(a1, b1) && same_expr(a2, b2),
        (ZEBRASymbolicExpr::SRLCarry(a1, a2), ZEBRASymbolicExpr::SRLCarry(b1, b2)) => same_expr(a1, b1) && same_expr(a2, b2),
        (ZEBRASymbolicExpr::Lt(a1, a2), ZEBRASymbolicExpr::Lt(b1, b2)) => same_expr(a1, b1) && same_expr(a2, b2),
        (ZEBRASymbolicExpr::WordAddU(a1, a2), ZEBRASymbolicExpr::WordAddU(b1, b2)) => same_word(a1, b1) && same_word(a2, b2),
        (ZEBRASymbolicExpr::WordSubU(a1, a2), ZEBRASymbolicExpr::WordSubU(b1, b2)) => same_word(a1, b1) && same_word(a2, b2),
        (ZEBRASymbolicExpr::WordMul(a1, a2), ZEBRASymbolicExpr::WordMul(b1, b2)) => same_word(a1, b1) && same_word(a2, b2),
        (ZEBRASymbolicExpr::WordMulhu(a1, a2), ZEBRASymbolicExpr::WordMulhu(b1, b2)) => same_word(a1, b1) && same_word(a2, b2),
        (ZEBRASymbolicExpr::WordMulhs(a1, a2), ZEBRASymbolicExpr::WordMulhs(b1, b2)) => same_word(a1, b1) && same_word(a2, b2),
        (ZEBRASymbolicExpr::WordMultl(a1, a2), ZEBRASymbolicExpr::WordMultl(b1, b2)) => same_word(a1, b1) && same_word(a2, b2),
        (ZEBRASymbolicExpr::WordMulth(a1, a2), ZEBRASymbolicExpr::WordMulth(b1, b2)) => same_word(a1, b1) && same_word(a2, b2),
        (ZEBRASymbolicExpr::WordMultul(a1, a2), ZEBRASymbolicExpr::WordMultul(b1, b2)) => same_word(a1, b1) && same_word(a2, b2),
        (ZEBRASymbolicExpr::WordMultuh(a1, a2), ZEBRASymbolicExpr::WordMultuh(b1, b2)) => same_word(a1, b1) && same_word(a2, b2),
        (ZEBRASymbolicExpr::WordDiv(a1, a2), ZEBRASymbolicExpr::WordDiv(b1, b2)) => same_word(a1, b1) && same_word(a2, b2),
        (ZEBRASymbolicExpr::WordSDiv(a1, a2), ZEBRASymbolicExpr::WordSDiv(b1, b2)) => same_word(a1, b1) && same_word(a2, b2),
        (ZEBRASymbolicExpr::WordLt(a1, a2), ZEBRASymbolicExpr::WordLt(b1, b2)) => same_word(a1, b1) && same_word(a2, b2),
        (ZEBRASymbolicExpr::WordSLe(a1, a2), ZEBRASymbolicExpr::WordSLe(b1, b2)) => same_word(a1, b1) && same_word(a2, b2),
        (ZEBRASymbolicExpr::WordSLt(a1, a2), ZEBRASymbolicExpr::WordSLt(b1, b2)) => same_word(a1, b1) && same_word(a2, b2),
        (ZEBRASymbolicExpr::WordAnd(a1, a2), ZEBRASymbolicExpr::WordAnd(b1, b2)) => same_word(a1, b1) && same_word(a2, b2),
        (ZEBRASymbolicExpr::WordOr(a1, a2), ZEBRASymbolicExpr::WordOr(b1, b2)) => same_word(a1, b1) && same_word(a2, b2),
        (ZEBRASymbolicExpr::WordXOr(a1, a2), ZEBRASymbolicExpr::WordXOr(b1, b2)) => same_word(a1, b1) && same_word(a2, b2),
        (ZEBRASymbolicExpr::WordEq(a1, a2), ZEBRASymbolicExpr::WordEq(b1, b2)) => same_word(a1, b1) && same_word(a2, b2),
        (ZEBRASymbolicExpr::WordNEq(a1, a2), ZEBRASymbolicExpr::WordNEq(b1, b2)) => same_word(a1, b1) && same_word(a2, b2),
        (ZEBRASymbolicExpr::WordSrl(a1, a2), ZEBRASymbolicExpr::WordSrl(b1, b2)) => same_word(a1, b1) && same_word(a2, b2),
        _ => false,
    }
}

/// Whether two words have the same limbs.
pub fn same_word(a: &ExprWord, b: &ExprWord) -> (r: bool)
    ensures
        r == (*a == *b),
    decreases *a, 0nat,
{
    same_expr(&a.l0, &b.l0) && same_expr(&a.l1, &b.l1) && same_expr(&a.l2, &b.l2) && same_expr(
        &a.l3,
        &b.l3,
    )
}

pub open spec fn is_leaf(e: ZEBRASymbolicExpr) -> bool {
    match e {
        ZEBRASymbolicExpr::Variable(_) | ZEBRASymbolicExpr::IsFirstRow
        | ZEBRASymbolicExpr::IsTransition
        | ZEBRASymbolicExpr::IsLastRow
        | ZEBRASymbolicExpr::Constant(_) => true,
        _ => false,
    }
}

/// The operation count of `e` when the subexpressions in `seen` are already
/// counted, and `seen` afterwards: a leaf counts nothing; a node already in
/// `seen` counts nothing and is not entered; another node joins `seen`,
/// counts one (a word operator none) and then its operands, left to right.
pub open spec fn cse_ops(e: ZEBRASymbolicExpr, seen: Set<ZEBRASymbolicExpr>) -> (nat, Set<ZEBRASymbolicExpr>)
    decreases e, 1nat,
{
    if is_leaf(e) || seen.contains(e) {
        (0, seen)
    } else {
        let s = seen.insert(e);
        match e {
            ZEBRASymbolicExpr::Msb(a)
        | ZEBRASymbolicExpr::Neg(a)
        | ZEBRASymbolicExpr::Flip(a)
        | ZEBRASymbolicExpr::KoalaBearRange(a)
        | ZEBRASymbolicExpr::BabyBearRange(a) => {
                let ra = cse_ops(*a, s);
                (1 + ra.0, ra.1)
            },
            ZEBRASymbolicExpr::WhenNonZero(a, b)
        | ZEBRASymbolicExpr::WhenZero(a, b)
        | ZEBRASymbolicExpr::Add(a, b)
        | ZEBRASymbolicExpr::Sub(a, b)
        | ZEBRASymbolicExpr::Mul(a, b)
        | ZEBRASymbolicExpr::MulLo(a, b)
        | ZEBRASymbolicExpr::MulHiSS(a, b)
        | ZEBRASymbolicExpr::MulHiUU(a, b)
        | ZEBRASymbolicExpr::And(a, b)
        | ZEBRASymbolicExpr::Or(a, b)
        | ZEBRASymbolicExpr::Xor(a, b)
        | ZEBRASymbolicExpr::SRL(a, b)
        | ZEBRASymbolicExpr::SRLCarry(a, b)
        | ZEBRASymbolicExpr::Lt(a, b) => {
                let ra = cse_ops(*a, s);
                let rb = cse_ops(*b, ra.1);
                (1 + ra.0 + rb.0, rb.1)
            },
            ZEBRASymbolicExpr::WordAddU(b, c)
        | ZEBRASymbolicExpr::WordSubU(b, c)
        | ZEBRASymbolicExpr::WordMul(b, c)
        | ZEBRASymbolicExpr::WordMulhu(b, c)
        | ZEBRASymbolicExpr::WordMulhs(b, c)
        | ZEBRASymbolicExpr::WordMultl(b, c)
        | ZEBRASymbolicExpr::WordMulth(b, c)
        | ZEBRASymbolicExpr::WordMultul(b, c)
        | ZEBRASymbolicExpr::WordMultuh(b, c)
        | ZEBRASymbolicExpr::WordDiv(b, c)
        | ZEBRASymbolicExpr::WordSDiv(b, c)
        | ZEBRASymbolicExpr::WordLt(b, c)
        | ZEBRASymbolicExpr::WordSLe(b, c)
        | ZEBRASymbolicExpr::WordSLt(b, c)
        | ZEBRASymbolicExpr::WordAnd(b, c)
        | ZEBRASymbolicExpr::WordOr(b, c)
        | ZEBRASymbolicExpr::WordXOr(b, c)
        | ZEBRASymbolicExpr::WordEq(b, c)
        | ZEBRASymbolicExpr::WordNEq(b, c)
        | ZEBRASymbolicExpr::WordSrl(b, c) => {
                let rb = cse_word_ops(b, s);
                let rc = cse_word_ops(c, rb.1);
                (rb.0 + rc.0, rc.1)
            },
            _ => (0, s),
        }
    }
}

pub open spec fn cse_word_ops(w: ExprWord, seen: Set<ZEBRASymbolicExpr>) -> (nat, Set<ZEBRASymbolicExpr>)
    decreases w, 0nat,
{
    let r0 = cse_ops(*w.l0, seen);
    let r1 = cse_ops(*w.l1, r0.1);
    let r2 = cse_ops(*w.l2, r1.1);
    let r3 = cse_ops(*w.l3, r2.1);
    (r0.0 + r1.0 + r2.0 + r3.0, r3.1)
}

/// The operation count of a list of expressions, each counted after the
/// ones before it, with shared subexpressions counted once.
pub open spec fn cse_ops_all(es: Seq<ZEBRASymbolicExpr>) -> (nat, Set<ZEBRASymbolicExpr>)
    decreases es.len(),
{
    if es.len() == 0 {
        (0, Set::empty())
    } else {
        let prev = cse_ops_all(es.drop_last());
        let r = cse_ops(es.last(), prev.1);
        (prev.0 + r.0, r.1)
    }
}

proof fn lemma_cse_ops_all_prefix(es: Seq<ZEBRASymbolicExpr>, i: int)
    requires
        0 <= i <= es.len(),
    ensures
        cse_ops_all(es.take(i)).0 <= cse_ops_all(es).0,
    decreases es.len(),
{
    if i < es.len() {
        assert(es.drop_last().take(i) =~= es.take(i));
        lemma_cse_ops_all_prefix(es.drop_last(), i);
    } else {
        assert(es.take(i) =~= es);
    }
}

fn seen_contains(seen: &Vec<ZEBRASymbolicExpr>, e: &ZEBRASymbolicExpr) -> (r: bool)
    ensures
        r == seen@.contains(*e),
{
    let mut i: usize = 0;
    while i < seen.len()
        invariant
            i <= seen.len(),
            forall|j: int| 0 <= j < i ==> seen@[j] != *e,
        decreases seen.len() - i,
    {
        if same_expr(&seen[i], e) {
            return true;
        }
        i += 1;
    }
    false
}

fn count_arith_ops_with_cse(expr: &ZEBRASymbolicExpr, seen: &mut Vec<ZEBRASymbolicExpr>) -> (r: usize)
    requires
        cse_ops(*expr, old(seen)@.to_set()).0 <= usize::MAX,
    ensures
        r == cse_ops(*expr, old(seen)@.to_set()).0,
        final(seen)@.to_set() == cse_ops(*expr, old(seen)@.to_set()).1,
    decreases *expr, 1nat,
{
    match expr {
        ZEBRASymbolicExpr::Variable(_) | ZEBRASymbolicExpr::IsFirstRow
        | ZEBRASymbolicExpr::IsTransition
        | ZEBRASymbolicExpr::IsLastRow
        | ZEBRASymbolicExpr::Constant(_) => {
            return 0;
        },
        _ => {},
    }
    if seen_contains(seen, expr) {
        return 0;
    }
    let ghost before = seen@;
    seen.push(expr.deep_copy());
    proof {
        before.lemma_push_to_set_commute(*expr);
    }
    match expr {
        ZEBRASymbolicExpr::Msb(a)
        | ZEBRASymbolicExpr::Neg(a)
        | ZEBRASymbolicExpr::Flip(a)
        | ZEBRASymbolicExpr::KoalaBearRange(a)
        | ZEBRASymbolicExpr::BabyBearRange(a) => 1 + count_arith_ops_with_cse(a, seen),
        ZEBRASymbolicExpr::WhenNonZero(a, b)
        | ZEBRASymbolicExpr::WhenZero(a, b)
        | ZEBRASymbolicExpr::Add(a, b)
        | ZEBRASymbolicExpr::Sub(a, b)
        | ZEBRASymbolicExpr::Mul(a, b)
        | ZEBRASymbolicExpr::MulLo(a, b)
        | ZEBRASymbolicExpr::MulHiSS(a, b)
        | ZEBRASymbolicExpr::MulHiUU(a, b)
        | ZEBRASymbolicExpr::And(a, b)
        | ZEBRASymbolicExpr::Or(a, b)
        | ZEBRASymbolicExpr::Xor(a, b)
        | ZEBRASymbolicExpr::SRL(a, b)
        | ZEBRASymbolicExpr::SRLCarry(a, b)
        | ZEBRASymbolicExpr::Lt(a, b) => {
            let x = count_arith_ops_with_cse(a, seen);
            let y = count_arith_ops_with_cse(b, seen);
            1 + x + y
        },
        ZEBRASymbolicExpr::WordAddU(b, c)
        | ZEBRASymbolicExpr::WordSubU(b, c)
        | ZEBRASymbolicExpr::WordMul(b, c)
        | ZEBRASymbolicExpr::WordMulhu(b, c)
        | ZEBRASymbolicExpr::WordMulhs(b, c)
        | ZEBRASymbolicExpr::WordMultl(b, c)
        | ZEBRASymbolicExpr::WordMulth(b, c)
        | ZEBRASymbolicExpr::WordMultul(b, c)
        | ZEBRASymbolicExpr::WordMultuh(b, c)
        | ZEBRASymbolicExpr::WordDiv(b, c)
        | ZEBRASymbolicExpr::WordSDiv(b, c)
        | ZEBRASymbolicExpr::WordLt(b, c)
        | ZEBRASymbolicExpr::WordSLe(b, c)
        | ZEBRASymbolicExpr::WordSLt(b, c)
        | ZEBRASymbolicExpr::WordAnd(b, c)
        | ZEBRASymbolicExpr::WordOr(b, c)
        | ZEBRASymbolicExpr::WordXOr(b, c)
        | ZEBRASymbolicExpr::WordEq(b, c)
        | ZEBRASymbolicExpr::WordNEq(b, c)
        | ZEBRASymbolicExpr::WordSrl(b, c) => {
            let x = count_word_arith_ops_with_cse(b, seen);
            let y = count_word_arith_ops_with_cse(c, seen);
            x + y
        },
        _ => 0,
    }
}

fn count_word_arith_ops_with_cse(w: &ExprWord, seen: &mut Vec<ZEBRASymbolicExpr>) -> (r: usize)
    requires
        cse_word_ops(*w, old(seen)@.to_set()).0 <= usize::MAX,
    ensures
        r == cse_word_ops(*w, old(seen)@.to_set()).0,
        final(seen)@.to_set() == cse_word_ops(*w, old(seen)@.to_set()).1,
    decreases *w, 0nat,
{
    let x0 = count_arith_ops_with_cse(&w.l0, seen);
    let x1 = count_arith_ops_with_cse(&w.l1, seen);
    let x2 = count_arith_ops_with_cse(&w.l2, seen);
    let x3 = count_arith_ops_with_cse(&w.l3, seen);
    x0 + x1 + x2 + x3
}

/// Counts the operation nodes of all the expressions together, a
/// subexpression shared between or within them counted once.
pub fn count_arith_ops_cse(exprs: &[&ZEBRASymbolicExpr]) -> (r: usize)
    requires
        cse_ops_all(exprs@.map_values(|e: &ZEBRASymbolicExpr| *e)).0 <= usize::MAX,
    ensures
        r == cse_ops_all(exprs@.map_values(|e: &ZEBRASymbolicExpr| *e)).0,
{
    let ghost es = exprs@.map_values(|e: &ZEBRASymbolicExpr| *e);
    let mut seen: Vec<ZEBRASymbolicExpr> = Vec::new();
    let mut total: usize = 0;
    let mut i: usize = 0;
    proof {
        assert(es.take(0) =~= Seq::<ZEBRASymbolicExpr>::empty());
        assert(seen@.to_set() =~= Set::<ZEBRASymbolicExpr>::empty());
    }
    while i < exprs.len()
        invariant
            i <= exprs.len(),
            es == exprs@.map_values(|e: &ZEBRASymbolicExpr| *e),
            cse_ops_all(es).0 <= usize::MAX,
            total == cse_ops_all(es.take(i as int)).0,
            seen@.to_set() == cse_ops_all(es.take(i as int)).1,
        decreases exprs.len() - i,
    {
        proof {
            assert(es.take(i as int + 1).drop_last() =~= es.take(i as int));
            lemma_cse_ops_all_prefix(es, i as int + 1);
        }
        let c = count_arith_ops_with_cse(exprs[i], &mut seen);
        total = total + c;
        i += 1;
    }
    proof {
        assert(es.take(exprs.len() as int) =~= es);
    }
    total
}

/// Counting shared subexpressions once never counts more than counting
/// every node: for any set of expressions already seen.
pub proof fn law_cse_at_most_plain(e: ZEBRASymbolicExpr, seen: Set<ZEBRASymbolicExpr>)
    ensures
        cse_ops(e, seen).0 <= arith_ops(e),
    decreases e, 1nat,
{
    if !(is_leaf(e) || seen.contains(e)) {
        let s = seen.insert(e);
        match e {
            ZEBRASymbolicExpr::Msb(a)
            | ZEBRASymbolicExpr::Neg(a)
            | ZEBRASymbolicExpr::Flip(a)
            | ZEBRASymbolicExpr::KoalaBearRange(a)
            | ZEBRASymbolicExpr::BabyBearRange(a) => {
                law_cse_at_most_plain(*a, s);
            },
            ZEBRASymbolicExpr::WhenNonZero(a, b)
            | ZEBRASymbolicExpr::WhenZero(a, b)
            | ZEBRASymbolicExpr::Add(a, b)
            | ZEBRASymbolicExpr::Sub(a, b)
            | ZEBRASymbolicExpr::Mul(a, b)
            | ZEBRASymbolicExpr::MulLo(a, b)
            | ZEBRASymbolicExpr::MulHiSS(a, b)
            | ZEBRASymbolicExpr::MulHiUU(a, b)
            | ZEBRASymbolicExpr::And(a, b)
            | ZEBRASymbolicExpr::Or(a, b)
            | ZEBRASymbolicExpr::Xor(a, b)
            | ZEBRASymbolicExpr::SRL(a, b)
            | ZEBRASymbolicExpr::SRLCarry(a, b)
            | ZEBRASymbolicExpr::Lt(a, b) => {
                law_cse_at_most_plain(*a, s);
                law_cse_at_most_plain(*b, cse_ops(*a, s).1);
            },
            ZEBRASymbolicExpr::WordAddU(b, c)
            | ZEBRASymbolicExpr::WordSubU(b, c)
            | ZEBRASymbolicExpr::WordMul(b, c)
            | ZEBRASymbolicExpr::WordMulhu(b, c)
            | ZEBRASymbolicExpr::WordMulhs(b, c)
            | ZEBRASymbolicExpr::WordMultl(b, c)
            | ZEBRASymbolicExpr::WordMulth(b, c)
            | ZEBRASymbolicExpr::WordMultul(b, c)
            | ZEBRASymbolicExpr::WordMultuh(b, c)
            | ZEBRASymbolicExpr::WordDiv(b, c)
            | ZEBRASymbolicExpr::WordSDiv(b, c)
            | ZEBRASymbolicExpr::WordLt(b, c)
            | ZEBRASymbolicExpr::WordSLe(b, c)
            | ZEBRASymbolicExpr::WordSLt(b, c)
            | ZEBRASymbolicExpr::WordAnd(b, c)
            | ZEBRASymbolicExpr::WordOr(b, c)
            | ZEBRASymbolicExpr::WordXOr(b, c)
            | ZEBRASymbolicExpr::WordEq(b, c)
            | ZEBRASymbolicExpr::WordNEq(b, c)
            | ZEBRASymbolicExpr::WordSrl(b, c) => {
                lemma_cse_word_at_most_plain(b, s);
                lemma_cse_word_at_most_plain(c, cse_word_ops(b, s).1);
            },
            _ => {},
        }
    }
}

proof fn lemma_cse_word_at_most_plain(w: ExprWord, seen: Set<ZEBRASymbolicExpr>)
    ensures
        cse_word_ops(w, seen).0 <= word_arith_ops(w),
    decreases w, 0nat,
{
    let r0 = cse_ops(*w.l0, seen);
    let r1 = cse_ops(*w.l1, r0.1);
    let r2 = cse_ops(*w.l2, r1.1);
    law_cse_at_most_plain(*w.l0, seen);
    law_cse_at_most_plain(*w.l1, r0.1);
    law_cse_at_most_plain(*w.l2, r1.1);
    law_cse_at_most_plain(*w.l3, r2.1);
}

} // verus!
