use vstd::prelude::*;
use std::collections::HashSet;

use crate::interval::{AbstractInterval, MayBeFlag};
use crate::symbolic::{ZEBRASymbolicEntry, ZEBRASymbolicExpr, ZEBRASymbolicVal};
use crate::wordop::{const_expr, reconstruct_symbolic_word, spec_reconstruct_symbolic_word};

verus! {

broadcast use vstd::std_specs::hash::group_hash_axioms;

// ----------------------------------------------------------------------
// variables of the current row
// ----------------------------------------------------------------------

/// The column of a current-row main-trace variable.
pub open spec fn spec_curr_i(e: ZEBRASymbolicExpr) -> Option<usize> {
    match e {
        ZEBRASymbolicExpr::Variable(v) => match v.entry {
            ZEBRASymbolicEntry::Main { is_curr } => if is_curr {
                Some(v.index)
            } else {
                None
            },
            _ => None,
        },
        _ => None,
    }
}

/// The column of the expression when it is a current-row main-trace variable.
pub fn get_curr_i(expr: &ZEBRASymbolicExpr) -> (r: Option<usize>)
    ensures
        r == spec_curr_i(*expr),
{
    if let ZEBRASymbolicExpr::Variable(v) = expr {
        if let ZEBRASymbolicEntry::Main { is_curr } = v.entry {
            if is_curr {
                return Some(v.index);
            }
        }
    }
    None
}

pub open spec fn spec_curr_i_sub_cur_j(e: ZEBRASymbolicExpr) -> Option<(usize, usize)> {
    match e {
        ZEBRASymbolicExpr::Sub(l, r) => match (spec_curr_i(*l), spec_curr_i(*r)) {
            (Some(i), Some(j)) => Some((i, j)),
            _ => None,
        },
        _ => None,
    }
}

/// The columns `(i, j)` of a difference `curr[i] - curr[j]`.
pub fn get_curr_i_sub_cur_j(expr: &ZEBRASymbolicExpr) -> (r: Option<(usize, usize)>)
    ensures
        r == spec_curr_i_sub_cur_j(*expr),
{
    if let ZEBRASymbolicExpr::Sub(lhs, rhs) = expr {
        if let Some(lhs_i) = get_curr_i(lhs) {
            if let Some(rhs_i) = get_curr_i(rhs) {
                return Some((lhs_i, rhs_i));
            }
        }
    }
    None
}

/// The value of a constant that holds a single value.
pub open spec fn single_const(e: ZEBRASymbolicExpr) -> Option<i128> {
    match e {
        ZEBRASymbolicExpr::Constant(c) => if c.lo == c.hi {
            Some(c.lo)
        } else {
            None
        },
        _ => None,
    }
}

fn get_single_const(e: &ZEBRASymbolicExpr) -> (r: Option<i128>)
    ensures
        r == single_const(*e),
{
    if let ZEBRASymbolicExpr::Constant(c) = e {
        if c.is_singleton() {
            return Some(c.lo);
        }
    }
    None
}

pub open spec fn spec_curr_i_sub_const(e: ZEBRASymbolicExpr) -> Option<(usize, i128)> {
    match e {
        ZEBRASymbolicExpr::Sub(l, r) => match (spec_curr_i(*l), single_const(*r)) {
            (Some(i), Some(k)) => Some((i, k)),
            _ => match (single_const(*l), spec_curr_i(*r)) {
                (Some(k), Some(i)) => Some((i, k)),
                _ => None,
            },
        },
        _ => None,
    }
}

/// The column and the constant of `curr[i] - k` or of `k - curr[i]`, for a
/// constant `k` that holds a single value.
pub fn get_curr_i_sub_const(expr: &ZEBRASymbolicExpr, _prime: u32) -> (r: Option<(usize, i128)>)
    ensures
        r == spec_curr_i_sub_const(*expr),
{
    if let ZEBRASymbolicExpr::Sub(lhs, rhs) = expr {
        if let Some(v_idx) = get_curr_i(lhs) {
            if let Some(k) = get_single_const(rhs) {
                return Some((v_idx, k));
            }
        }
        if let Some(k) = get_single_const(lhs) {
            if let Some(v_idx) = get_curr_i(rhs) {
                return Some((v_idx, k));
            }
        }
    }
    None
}

pub open spec fn spec_curr_i_with_polarity(e: ZEBRASymbolicExpr) -> Option<(usize, bool)> {
    match spec_curr_i(e) {
        Some(i) => Some((i, false)),
        None => match e {
            ZEBRASymbolicExpr::Sub(l, r) => match (single_const(*l), spec_curr_i(*r)) {
                (Some(k), Some(i)) => if k == 1 {
                    Some((i, true))
                } else {
                    None
                },
                _ => None,
            },
            _ => None,
        },
    }
}

/// A selector `curr[s]` as `(s, false)`, fired when the column is 1, and
/// `1 - curr[s]` as `(s, true)`, fired when the column is 0.
pub fn get_curr_i_with_polarity(expr: &ZEBRASymbolicExpr) -> (r: Option<(usize, bool)>)
    ensures
        r == spec_curr_i_with_polarity(*expr),
{
    if let Some(idx) = get_curr_i(expr) {
        return Some((idx, false));
    }
    if let ZEBRASymbolicExpr::Sub(lhs, rhs) = expr {
        if let Some(k) = get_single_const(lhs) {
            if k == 1 {
                if let Some(idx) = get_curr_i(rhs) {
                    return Some((idx, true));
                }
            }
        }
    }
    None
}

pub open spec fn spec_curr_i_or_zero(e: ZEBRASymbolicExpr) -> Option<(usize, i128)> {
    match spec_curr_i_sub_const(e) {
        Some(r) => Some(r),
        None => match spec_curr_i(e) {
            Some(i) => Some((i, 0)),
            None => None,
        },
    }
}

/// As `get_curr_i_sub_const`, and a bare current-row variable with target 0.
pub fn get_curr_i_or_zero(expr: &ZEBRASymbolicExpr, prime: u32) -> (r: Option<(usize, i128)>)
    ensures
        r == spec_curr_i_or_zero(*expr),
{
    if let Some(result) = get_curr_i_sub_const(expr, prime) {
        return Some(result);
    }
    if let Some(idx) = get_curr_i(expr) {
        return Some((idx, 0));
    }
    None
}

// ----------------------------------------------------------------------
// sums of variables
// ----------------------------------------------------------------------

/// The columns of a sum made only of additions and variables, left to
/// right, repetitions kept; `None` for any other expression.
pub open spec fn add_vars_seq(e: ZEBRASymbolicExpr) -> Option<Seq<usize>>
    decreases e,
{
    match e {
        ZEBRASymbolicExpr::Add(l, r) => match (add_vars_seq(*l), add_vars_seq(*r)) {
            (Some(a), Some(b)) => Some(a + b),
            _ => None,
        },
        ZEBRASymbolicExpr::Variable(v) => Some(seq![v.index]),
        _ => None,
    }
}

/// The columns of a sum of variables, in order and with repetitions.
pub fn collect_add_vars_vec(expr: &ZEBRASymbolicExpr) -> (r: Option<Vec<usize>>)
    ensures
        match (r, add_vars_seq(*expr)) {
            (Some(v), Some(s)) => v@ == s,
            (None, None) => true,
            _ => false,
        },
    decreases *expr,
{
    match expr {
        ZEBRASymbolicExpr::Add(lhs, rhs) => {
            let left = collect_add_vars_vec(lhs);
            match left {
                Some(mut l) => {
                    let right = collect_add_vars_vec(rhs);
                    match right {
                        Some(mut r) => {
                            l.append(&mut r);
                            Some(l)
                        },
                        None => None,
                    }
                },
                None => None,
            }
        },
        ZEBRASymbolicExpr::Variable(v) => {
            let mut out: Vec<usize> = Vec::new();
            out.push(v.index);
            proof {
                assert(out@ =~= seq![v.index]);
            }
            Some(out)
        },
        _ => None,
    }
}

/// The elements of `v` in order of first appearance, each once.
fn dedup(v: &Vec<usize>) -> (r: Vec<usize>)
    ensures
        r@.no_duplicates(),
        r@.to_set() == v@.to_set(),
{
    let mut out: Vec<usize> = Vec::new();
    let mut seen: HashSet<usize> = HashSet::new();
    let mut i: usize = 0;
    while i < v.len()
        invariant
            i <= v.len(),
            out@.no_duplicates(),
            seen@ == out@.to_set(),
            out@.to_set() == v@.take(i as int).to_set(),
        decreases v.len() - i,
    {
        let x = v[i];
        proof {
            assert(v@.take(i as int + 1) =~= v@.take(i as int).push(x));
            v@.take(i as int).lemma_push_to_set_commute(x);
        }
        if !seen.contains(&x) {
            let ghost before = out@;
            out.push(x);
            seen.insert(x);
            proof {
                before.lemma_push_to_set_commute(x);
                assert forall|a: int, b: int| 0 <= a < out@.len() && 0 <= b < out@.len() && a != b implies out@[a] != out@[b] by {
                    if a < before.len() && b < before.len() {
                        assert(before[a] != before[b]);
                    } else if a == before.len() {
                        assert(!before.to_set().contains(x));
                        assert(before.contains(before[b]));
                    } else {
                        assert(!before.to_set().contains(x));
                        assert(before.contains(before[a]));
                    }
                }
            }
        } else {
            proof {
                assert(out@.to_set().insert(x) =~= out@.to_set());
            }
        }
        i += 1;
    }
    proof {
        assert(v@.take(v.len() as int) =~= v@);
    }
    out
}

/// The columns of a sum of variables, each once.
pub open spec fn add_vars_set(e: ZEBRASymbolicExpr) -> Option<Set<usize>> {
    match add_vars_seq(e) {
        Some(s) => Some(s.to_set()),
        None => None,
    }
}

/// The distinct columns of a sum of variables.
pub fn collect_add_vars(expr: &ZEBRASymbolicExpr) -> (r: Option<Vec<usize>>)
    ensures
        match (r, add_vars_set(*expr)) {
            (Some(v), Some(s)) => v@.no_duplicates() && v@.to_set() == s,
            (None, None) => true,
            _ => false,
        },
{
    match collect_add_vars_vec(expr) {
        Some(v) => Some(dedup(&v)),
        None => None,
    }
}

/// The distinct columns and the constant of `(sum of variables) - k` or of
/// `k - (sum of variables)`, for a constant `k` that holds a single value.
pub open spec fn spec_add_vars_sub_const(e: ZEBRASymbolicExpr) -> Option<(Set<usize>, i128)> {
    match e {
        ZEBRASymbolicExpr::Sub(l, r) => match (add_vars_set(*l), single_const(*r)) {
            (Some(s), Some(k)) => Some((s, k)),
            _ => match (single_const(*l), add_vars_set(*r)) {
                (Some(k), Some(s)) => Some((s, k)),
                _ => None,
            },
        },
        _ => None,
    }
}

pub open spec fn vars_result_matches(r: Option<(Vec<usize>, i128)>, s: Option<(Set<usize>, i128)>) -> bool {
    match (r, s) {
        (Some(x), Some(y)) => x.0@.no_duplicates() && x.0@.to_set() == y.0 && x.1 == y.1,
        (None, None) => true,
        _ => false,
    }
}

/// The distinct columns, in no promised order, and the constant of a sum of
/// variables minus a constant, or of a constant minus such a sum.
pub fn get_curr_add_vars_sub_const(expr: &ZEBRASymbolicExpr, _prime: u32) -> (r: Option<(Vec<usize>, i128)>)
    ensures
        vars_result_matches(r, spec_add_vars_sub_const(*expr)),
{
    if let ZEBRASymbolicExpr::Sub(lhs, rhs) = expr {
        if let Some(vs) = collect_add_vars(lhs) {
            if let Some(k) = get_single_const(rhs) {
                return Some((vs, k));
            }
        }
        if let Some(k) = get_single_const(lhs) {
            if let Some(vs) = collect_add_vars(rhs) {
                return Some((vs, k));
            }
        }
    }
    None
}

pub open spec fn spec_add_vars_or_zero(e: ZEBRASymbolicExpr) -> Option<(Set<usize>, i128)> {
    match spec_add_vars_sub_const(e) {
        Some(r) => Some(r),
        None => match add_vars_set(e) {
            Some(s) => Some((s, 0)),
            None => None,
        },
    }
}

/// As `get_curr_add_vars_sub_const`, and a bare sum of variables with target 0.
pub fn get_curr_add_vars_or_zero(expr: &ZEBRASymbolicExpr, prime: u32) -> (r: Option<(Vec<usize>, i128)>)
    ensures
        vars_result_matches(r, spec_add_vars_or_zero(*expr)),
{
    if let Some(result) = get_curr_add_vars_sub_const(expr, prime) {
        return Some(result);
    }
    if let Some(vs) = collect_add_vars(expr) {
        return Some((vs, 0));
    }
    None
}

// ----------------------------------------------------------------------
// propagation of selector products on a row
// ----------------------------------------------------------------------

/// The columns a constraint makes the preprocessing read exist on a row of
/// `n` cells.
pub open spec fn preprocess_ok(c: ZEBRASymbolicExpr, n: nat) -> bool {
    match c {
        ZEBRASymbolicExpr::Mul(l, r) => match spec_curr_i(*l) {
            Some(li) => li < n && match spec_curr_i(*r) {
                Some(ri) => ri < n,
                None => match spec_curr_i_sub_cur_j(*r) {
                    Some((a, b)) => a < n && b < n,
                    None => true,
                },
            },
            None => true,
        },
        _ => true,
    }
}

/// One constraint applied to the row: from `s * x` with `s` surely non-zero,
/// `x` that may be zero becomes zero; from `s * (x - y)` with `s` surely
/// non-zero, a single-valued side is copied to the other side.
pub open spec fn preprocess_step(c: ZEBRASymbolicExpr, row: Seq<AbstractInterval>, p: u32) -> Seq<AbstractInterval> {
    match c {
        ZEBRASymbolicExpr::Mul(l, r) => match spec_curr_i(*l) {
            Some(li) => match spec_curr_i(*r) {
                Some(ri) => if row[li as int].spec_is_non_zero(p as int) == MayBeFlag::True
                    && row[ri as int].spec_is_zero(p as int) != MayBeFlag::False {
                    row.update(ri as int, AbstractInterval { lo: 0, hi: 0 })
                } else {
                    row
                },
                None => match spec_curr_i_sub_cur_j(*r) {
                    Some((a, b)) => if row[li as int].spec_is_non_zero(p as int) == MayBeFlag::True {
                        let row1 = if row[a as int].spec_is_singleton()
                            && !row[b as int].spec_is_singleton() {
                            row.update(b as int, row[a as int])
                        } else {
                            row
                        };
                        if !row1[a as int].spec_is_singleton() && row1[b as int].spec_is_singleton() {
                            row1.update(a as int, row1[b as int])
                        } else {
                            row1
                        }
                    } else {
                        row
                    },
                    None => row,
                },
            },
            None => row,
        },
        _ => row,
    }
}

/// The constraints applied to the row in order.
pub open spec fn preprocess_all(cs: Seq<ZEBRASymbolicExpr>, row: Seq<AbstractInterval>, p: u32) -> Seq<AbstractInterval>
    decreases cs.len(),
{
    if cs.len() == 0 {
        row
    } else {
        preprocess_step(cs.last(), preprocess_all(cs.drop_last(), row, p), p)
    }
}

proof fn lemma_preprocess_step_keeps(c: ZEBRASymbolicExpr, row: Seq<AbstractInterval>, p: u32)
    requires
        preprocess_ok(c, row.len()),
    ensures
        preprocess_step(c, row, p).len() == row.len(),
{
}

/// Applies each constraint of the form `s * x` or `s * (x - y)` over
/// current-row columns to the row, in order (see `preprocess_step`).
pub fn preprocess_row(air_constraints: &Vec<ZEBRASymbolicExpr>, row: &mut Vec<AbstractInterval>, p: u32)
    requires
        p > 0,
        forall|k: int| 0 <= k < air_constraints@.len() ==> preprocess_ok(
            #[trigger] air_constraints@[k],
            old(row)@.len(),
        ),
    ensures
        final(row)@ == preprocess_all(air_constraints@, old(row)@, p),
{
    let ghost row0 = row@;
    let mut k: usize = 0;
    proof {
        assert(air_constraints@.take(0) =~= Seq::<ZEBRASymbolicExpr>::empty());
    }
    while k < air_constraints.len()
        invariant
            p > 0,
            k <= air_constraints.len(),
            row@.len() == row0.len(),
            forall|j: int| 0 <= j < air_constraints@.len() ==> preprocess_ok(
                #[trigger] air_constraints@[j],
                row0.len(),
            ),
            row@ == preprocess_all(air_constraints@.take(k as int), row0, p),
        decreases air_constraints.len() - k,
    {
        let c = &air_constraints[k];
        let ghost before = row@;
        proof {
            assert(air_constraints@.take(k as int + 1).drop_last() =~= air_constraints@.take(k as int));
            lemma_preprocess_step_keeps(*c, before, p);
        }
        if let ZEBRASymbolicExpr::Mul(lhs, rhs) = c {
            if let Some(lhs_i) = get_curr_i(lhs) {
                if let Some(rhs_i) = get_curr_i(rhs) {
                    if row[lhs_i].is_non_zero(p) == MayBeFlag::True && row[rhs_i].is_zero(p)
                        != MayBeFlag::False {
                        row.set(rhs_i, AbstractInterval::zero());
                    }
                } else if let Some((r_lhs_i, r_rhs_i)) = get_curr_i_sub_cur_j(rhs) {
                    if row[lhs_i].is_non_zero(p) == MayBeFlag::True {
                        if row[r_lhs_i].is_singleton() && !row[r_rhs_i].is_singleton() {
                            let v = row[r_lhs_i];
                            row.set(r_rhs_i, v);
                        }
                        if !row[r_lhs_i].is_singleton() && row[r_rhs_i].is_singleton() {
                            let v = row[r_rhs_i];
                            row.set(r_lhs_i, v);
                        }
                    }
                }
            }
        }
        proof {
            assert(row@ =~= preprocess_step(*c, before, p));
        }
        k += 1;
    }
    proof {
        assert(air_constraints@.take(air_constraints.len() as int) =~= air_constraints@);
    }
}

// ----------------------------------------------------------------------
// constraint shapes
// ----------------------------------------------------------------------

/// The canonical value of a constant in the field of size `p`.
pub open spec fn canonical(c: AbstractInterval, p: u32) -> int {
    (c.lo as int) % (p as int)
}

/// `s * ((x + y) - k)` with `k = 58079999` in the field.
pub open spec fn iszero_parts(e: ZEBRASymbolicExpr, p: u32) -> Option<(ZEBRASymbolicExpr, ZEBRASymbolicExpr, ZEBRASymbolicExpr)> {
    match e {
        ZEBRASymbolicExpr::Mul(lhs, rhs) => match *rhs {
            ZEBRASymbolicExpr::Sub(r_lhs, r_rhs) => match *r_rhs {
                ZEBRASymbolicExpr::Constant(c) => if canonical(c, p) == 58079999 {
                    match *r_lhs {
                        ZEBRASymbolicExpr::Add(x, y) => Some((*lhs, *x, *y)),
                        _ => None,
                    }
                } else {
                    None
                },
                _ => None,
            },
            _ => None,
        },
        _ => None,
    }
}

/// The two guarded constraints of an is-zero gadget under selector `s`:
/// `y = 1` where `x` is zero and `y = 0` where it is not.
pub open spec fn spec_iszero_rewrite(s: ZEBRASymbolicExpr, x: ZEBRASymbolicExpr, y: ZEBRASymbolicExpr) -> Seq<ZEBRASymbolicExpr> {
    seq![
        ZEBRASymbolicExpr::WhenNonZero(
            Box::new(s),
            Box::new(
                ZEBRASymbolicExpr::WhenZero(
                    Box::new(x),
                    Box::new(ZEBRASymbolicExpr::Sub(Box::new(y), Box::new(const_expr(1)))),
                ),
            ),
        ),
        ZEBRASymbolicExpr::WhenNonZero(
            Box::new(s),
            Box::new(
                ZEBRASymbolicExpr::WhenNonZero(
                    Box::new(x),
                    Box::new(ZEBRASymbolicExpr::Sub(Box::new(y), Box::new(const_expr(0)))),
                ),
            ),
        ),
    ]
}

/// Recognises the is-zero gadget `s * ((x + y) - 58079999)` and rewrites it
/// into its two guarded constraints.
pub fn is_iszero_operator(constraint: &ZEBRASymbolicExpr, prime: u32) -> (r: Option<Vec<ZEBRASymbolicExpr>>)
    requires
        prime > 0,
    ensures
        match (r, iszero_parts(*constraint, prime)) {
            (Some(v), Some((s, x, y))) => v@ == spec_iszero_rewrite(s, x, y),
            (None, None) => true,
            _ => false,
        },
{
    if let ZEBRASymbolicExpr::Mul(lhs, rhs) = constraint {
        if let ZEBRASymbolicExpr::Sub(r_lhs, r_rhs) = &**rhs {
            if let ZEBRASymbolicExpr::Constant(c) = &**r_rhs {
                if c.as_canonical_u32(prime) == 58079999 {
                    if let ZEBRASymbolicExpr::Add(x, y) = &**r_lhs {
                        let cond_when_zero = ZEBRASymbolicExpr::WhenZero(
                            Box::new(x.deep_copy()),
                            Box::new(
                                ZEBRASymbolicExpr::Sub(
                                    Box::new(y.deep_copy()),
                                    Box::new(ZEBRASymbolicExpr::Constant(AbstractInterval::one())),
                                ),
                            ),
                        );
                        let cond_when_notzero = ZEBRASymbolicExpr::WhenNonZero(
                            Box::new(x.deep_copy()),
                            Box::new(
                                ZEBRASymbolicExpr::Sub(
                                    Box::new(y.deep_copy()),
                                    Box::new(ZEBRASymbolicExpr::Constant(AbstractInterval::zero())),
                                ),
                            ),
                        );
                        let v = vec![
                            ZEBRASymbolicExpr::WhenNonZero(Box::new(lhs.deep_copy()), Box::new(cond_when_zero)),
                            ZEBRASymbolicExpr::WhenNonZero(Box::new(lhs.deep_copy()), Box::new(cond_when_notzero)),
                        ];
                        proof {
                            assert(v@ =~= spec_iszero_rewrite(**lhs, **x, **y));
                        }
                        return Some(v);
                    }
                }
            }
        }
    }
    None
}

/// `s * ((x0 + x1 + x2 + x3) - k)` with the four limb columns of a word and
/// `k` in the field: the selector and the columns.
pub open spec fn word_range_parts(e: ZEBRASymbolicExpr, p: u32, k: int) -> Option<(ZEBRASymbolicExpr, Seq<usize>)> {
    match e {
        ZEBRASymbolicExpr::Mul(lhs, rhs) => match *rhs {
            ZEBRASymbolicExpr::Sub(r_lhs, r_rhs) => match *r_rhs {
                ZEBRASymbolicExpr::Constant(c) => if canonical(c, p) == k {
                    match add_vars_seq(*r_lhs) {
                        Some(w) => if w.len() == 4 {
                            Some((*lhs, w))
                        } else {
                            None
                        },
                        None => None,
                    }
                } else {
                    None
                },
                _ => None,
            },
            _ => None,
        },
        _ => None,
    }
}

/// The current-row main-trace variable of a column.
pub open spec fn curr_var(i: usize) -> ZEBRASymbolicExpr {
    ZEBRASymbolicExpr::Variable(ZEBRASymbolicVal { entry: ZEBRASymbolicEntry::Main { is_curr: true }, index: i })
}

/// The value of the word whose limbs are the current-row columns `w`.
pub open spec fn curr_word_value(w: Seq<usize>) -> ZEBRASymbolicExpr {
    spec_reconstruct_symbolic_word(seq![curr_var(w[0]), curr_var(w[1]), curr_var(w[2]), curr_var(w[3])], 0)
}

fn curr_word_value_of(w: &Vec<usize>) -> (r: ZEBRASymbolicExpr)
    requires
        w@.len() == 4,
    ensures
        r == curr_word_value(w@),
{
    let mut vars: Vec<ZEBRASymbolicExpr> = Vec::new();
    let mut i: usize = 0;
    while i < 4
        invariant
            w@.len() == 4,
            i <= 4,
            vars@.len() == i,
            forall|j: int| 0 <= j < i ==> vars@[j] == curr_var(w@[j]),
        decreases 4 - i,
    {
        vars.push(
            ZEBRASymbolicExpr::Variable(
                ZEBRASymbolicVal { entry: ZEBRASymbolicEntry::Main { is_curr: true }, index: w[i] },
            ),
        );
        i += 1;
    }
    proof {
        assert(vars@ =~= seq![curr_var(w@[0]), curr_var(w@[1]), curr_var(w@[2]), curr_var(w@[3])]);
    }
    reconstruct_symbolic_word(vars.as_slice(), 0)
}

fn word_range_of(constraint: &ZEBRASymbolicExpr, prime: u32, k: u32) -> (r: Option<(ZEBRASymbolicExpr, ZEBRASymbolicExpr)>)
    requires
        prime > 0,
    ensures
        match (r, word_range_parts(*constraint, prime, k as int)) {
            (Some((s, cond)), Some((s2, w))) => s == s2 && cond == curr_word_value(w),
            (None, None) => true,
            _ => false,
        },
{
    if let ZEBRASymbolicExpr::Mul(lhs, rhs) = constraint {
        if let ZEBRASymbolicExpr::Sub(r_lhs, r_rhs) = &**rhs {
            if let ZEBRASymbolicExpr::Constant(c) = &**r_rhs {
                if c.as_canonical_u32(prime) == k {
                    if let Some(word) = collect_add_vars_vec(r_lhs) {
                        if word.len() == 4 {
                            let cond = curr_word_value_of(&word);
                            return Some((lhs.deep_copy(), cond));
                        }
                    }
                }
            }
        }
    }
    None
}

/// Recognises the KoalaBear range check `s * (word - 13227174)` over four
/// limb columns and rewrites it to `s /= 0 => KoalaBearRange(word)`.
pub fn is_koalabear_word_range(constraint: &ZEBRASymbolicExpr, prime: u32) -> (r: Option<ZEBRASymbolicExpr>)
    requires
        prime > 0,
    ensures
        match (r, word_range_parts(*constraint, prime, 13227174)) {
            (Some(e), Some((s, w))) => e == ZEBRASymbolicExpr::WhenNonZero(
                Box::new(s),
                Box::new(ZEBRASymbolicExpr::KoalaBearRange(Box::new(curr_word_value(w)))),
            ),
            (None, None) => true,
            _ => false,
        },
{
    match word_range_of(constraint, prime, 13227174) {
        Some((s, cond)) => Some(
            ZEBRASymbolicExpr::WhenNonZero(
                Box::new(s),
                Box::new(ZEBRASymbolicExpr::KoalaBearRange(Box::new(cond))),
            ),
        ),
        None => None,
    }
}

/// Recognises the BabyBear range check `s * (word - 785099)` over four limb
/// columns and rewrites it to `s /= 0 => BabyBearRange(word)`.
pub fn is_babybear_word_range(constraint: &ZEBRASymbolicExpr, prime: u32) -> (r: Option<ZEBRASymbolicExpr>)
    requires
        prime > 0,
    ensures
        match (r, word_range_parts(*constraint, prime, 785099)) {
            (Some(e), Some((s, w))) => e == ZEBRASymbolicExpr::WhenNonZero(
                Box::new(s),
                Box::new(ZEBRASymbolicExpr::BabyBearRange(Box::new(curr_word_value(w)))),
            ),
            (None, None) => true,
            _ => false,
        },
{
    match word_range_of(constraint, prime, 785099) {
        Some((s, cond)) => Some(
            ZEBRASymbolicExpr::WhenNonZero(
                Box::new(s),
                Box::new(ZEBRASymbolicExpr::BabyBearRange(Box::new(cond))),
            ),
        ),
        None => None,
    }
}

/// The column of `x - 1` for a variable `x`.
pub open spec fn x_minus_one(e: ZEBRASymbolicExpr) -> Option<usize> {
    match e {
        ZEBRASymbolicExpr::Sub(l, r) => match (*l, *r) {
            (ZEBRASymbolicExpr::Variable(v), ZEBRASymbolicExpr::Constant(c)) => if c.lo == 1 && c.hi
                == 1 {
                Some(v.index)
            } else {
                None
            },
            _ => None,
        },
        _ => None,
    }
}

fn get_x_minus_one(e: &ZEBRASymbolicExpr) -> (r: Option<usize>)
    ensures
        r == x_minus_one(*e),
{
    if let ZEBRASymbolicExpr::Sub(lhs, rhs) = e {
        if let ZEBRASymbolicExpr::Variable(v) = &**lhs {
            if let ZEBRASymbolicExpr::Constant(c) = &**rhs {
                if c.lo == 1 && c.hi == 1 {
                    return Some(v.index);
                }
            }
        }
    }
    None
}

/// The column `x` of a boolean constraint `x * (x - 1)` or `(x - 1) * x`.
pub open spec fn spec_boolean_constraint(e: ZEBRASymbolicExpr) -> Option<usize> {
    match e {
        ZEBRASymbolicExpr::Mul(a, b) => {
            let first = match *a {
                ZEBRASymbolicExpr::Variable(v) => x_minus_one(*b) == Some(v.index),
                _ => false,
            };
            let second = match *b {
                ZEBRASymbolicExpr::Variable(v) => x_minus_one(*a) == Some(v.index),
                _ => false,
            };
            if first {
                x_minus_one(*b)
            } else if second {
                x_minus_one(*a)
            } else {
                None
            }
        },
        _ => None,
    }
}

/// Recognises the boolean constraint `x * (x - 1)` (either order) and
/// returns the column of `x`.
pub fn is_boolean_constraint(constraint: &ZEBRASymbolicExpr) -> (r: Option<usize>)
    ensures
        r == spec_boolean_constraint(*constraint),
{
    if let ZEBRASymbolicExpr::Mul(a, b) = constraint {
        if let ZEBRASymbolicExpr::Variable(v) = &**a {
            if get_x_minus_one(b) == Some(v.index) {
                return Some(v.index);
            }
        }
        if let ZEBRASymbolicExpr::Variable(v) = &**b {
            if get_x_minus_one(a) == Some(v.index) {
                return Some(v.index);
            }
        }
    }
    None
}

/// The boolean columns a constraint shows: that of a boolean constraint, and
/// that of `m * (x * (x - 1))` whose multiplier `m` is a sum of
/// multiplicity columns.
pub open spec fn boolean_vars_of(c: ZEBRASymbolicExpr, mult: Set<usize>) -> Set<usize> {
    let guarded = match c {
        ZEBRASymbolicExpr::Mul(lhs, rhs) => match (add_vars_set(*lhs), spec_boolean_constraint(*rhs)) {
            (Some(s), Some(i)) => if s.subset_of(mult) {
                set![i]
            } else {
                Set::empty()
            },
            _ => Set::empty(),
        },
        _ => Set::empty(),
    };
    let direct = match spec_boolean_constraint(c) {
        Some(i) => set![i],
        None => Set::empty(),
    };
    guarded.union(direct)
}

pub open spec fn boolean_vars_all(cs: Seq<ZEBRASymbolicExpr>, mult: Set<usize>) -> Set<usize>
    decreases cs.len(),
{
    if cs.len() == 0 {
        Set::empty()
    } else {
        boolean_vars_all(cs.drop_last(), mult).union(boolean_vars_of(cs.last(), mult))
    }
}

fn all_in(v: &Vec<usize>, m: &HashSet<usize>) -> (r: bool)
    ensures
        r == v@.to_set().subset_of(m@),
{
    let mut i: usize = 0;
    while i < v.len()
        invariant
            i <= v.len(),
            forall|j: int| 0 <= j < i ==> m@.contains(#[trigger] v@[j]),
        decreases v.len() - i,
    {
        if !m.contains(&v[i]) {
            proof {
                assert(v@.to_set().contains(v@[i as int]));
            }
            return false;
        }
        i += 1;
    }
    proof {
        assert forall|x: usize| v@.to_set().contains(x) implies m@.contains(x) by {
            let j = choose|j: int| 0 <= j < v@.len() && v@[j] == x;
            assert(m@.contains(v@[j]));
        }
    }
    true
}

/// The columns that the constraints show to be boolean, each once, in no
/// promised order (see `boolean_vars_of`).
pub fn gather_boolean_variables(constraints: &[ZEBRASymbolicExpr], multiplicities: &HashSet<usize>) -> (r: Vec<usize>)
    ensures
        r@.no_duplicates(),
        r@.to_set() == boolean_vars_all(constraints@, multiplicities@),
{
    let mut found: Vec<usize> = Vec::new();
    let mut i: usize = 0;
    proof {
        assert(constraints@.take(0) =~= Seq::<ZEBRASymbolicExpr>::empty());
    }
    while i < constraints.len()
        invariant
            i <= constraints.len(),
            found@.to_set() == boolean_vars_all(constraints@.take(i as int), multiplicities@),
        decreases constraints.len() - i,
    {
        let c = &constraints[i];
        let ghost before = found@;
        let ghost mut added: Set<usize> = Set::empty();
        if let ZEBRASymbolicExpr::Mul(lhs, rhs) = c {
            if let Some(add_vars) = collect_add_vars(lhs) {
                if all_in(&add_vars, multiplicities) {
                    if let Some(idx) = is_boolean_constraint(rhs) {
                        let ghost b = found@;
                        found.push(idx);
                        proof {
                            b.lemma_push_to_set_commute(idx);
                            added = set![idx];
                        }
                    }
                }
            }
        }
        if let Some(idx) = is_boolean_constraint(c) {
            let ghost b = found@;
            found.push(idx);
            proof {
                b.lemma_push_to_set_commute(idx);
                added = added.insert(idx);
            }
        }
        proof {
            assert(constraints@.take(i as int + 1).drop_last() =~= constraints@.take(i as int));
            assert(boolean_vars_of(*c, multiplicities@) =~= added);
            assert(found@.to_set() =~= before.to_set().union(added));
        }
        i += 1;
    }
    proof {
        assert(constraints@.take(constraints.len() as int) =~= constraints@);
    }
    dedup(&found)
}

/// `expr` itself for an opcode constant equal to `opcode_val` in the field,
/// nothing for another opcode constant, and `opcode_var - opcode_val = 0 =>
/// expr` for an opcode that is not a constant.
pub open spec fn spec_make_impl_constraint(opcode_val: i128, opcode_var: ZEBRASymbolicExpr, expr: ZEBRASymbolicExpr, p: u32) -> Option<ZEBRASymbolicExpr> {
    match opcode_var {
        ZEBRASymbolicExpr::Constant(c) => if canonical(c, p) == opcode_val {
            Some(expr)
        } else {
            None
        },
        _ => Some(
            ZEBRASymbolicExpr::WhenZero(
                Box::new(
                    ZEBRASymbolicExpr::Sub(Box::new(opcode_var), Box::new(const_expr(opcode_val as int))),
                ),
                Box::new(expr),
            ),
        ),
    }
}

/// Makes a constraint apply only to rows of the given opcode.
pub fn make_impl_constraint(opcode_val: i128, opcode_var: &ZEBRASymbolicExpr, expr: ZEBRASymbolicExpr, prime: u32) -> (r: Option<ZEBRASymbolicExpr>)
    requires
        prime > 0,
    ensures
        r == spec_make_impl_constraint(opcode_val, *opcode_var, expr, prime),
{
    if let ZEBRASymbolicExpr::Constant(c) = opcode_var {
        if c.as_canonical_u32(prime) as i128 == opcode_val {
            Some(expr)
        } else {
            None
        }
    } else {
        Some(
            ZEBRASymbolicExpr::WhenZero(
                Box::new(
                    ZEBRASymbolicExpr::Sub(
                        Box::new(opcode_var.deep_copy()),
                        Box::new(ZEBRASymbolicExpr::Constant(AbstractInterval::from_i128(opcode_val))),
                    ),
                ),
                Box::new(expr),
            ),
        )
    }
}

/// The columns of the general lookup argument.
#[derive(Clone, Default, Debug)]
pub struct GeneralLookupInfo {
    pub op_a: Vec<usize>,
    pub op_b: Vec<usize>,
    pub op_c: Vec<usize>,
    pub is_real: Vec<ZEBRASymbolicExpr>,
}

} // verus!
