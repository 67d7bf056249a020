use vstd::prelude::*;
use std::collections::HashSet;

use crate::interval::{AbstractInterval, MayBeFlag};
use crate::patterns::{
    get_curr_add_vars_or_zero, get_curr_add_vars_sub_const, get_curr_i, get_curr_i_or_zero,
    get_curr_i_sub_const, get_curr_i_sub_cur_j, get_curr_i_with_polarity, spec_add_vars_or_zero,
    spec_add_vars_sub_const, spec_curr_i, spec_curr_i_or_zero, spec_curr_i_sub_const,
    spec_curr_i_sub_cur_j, spec_curr_i_with_polarity,
};
use crate::analysis::{gather_vars_simple, simple_cols_of};
use crate::constraint::row_env;
use crate::symbolic::{make_env, ExprWord, ZEBRASymbolicExpr};
use crate::wordop::{spec_word_addu, word_addu, word_ok, Word};
use crate::trace::AbstractTrace;

verus! {

// ----------------------------------------------------------------------
// detections: the matching constraints, in order
// ----------------------------------------------------------------------

/// The values `f` gives on the elements of `s` where it gives one, in order.
pub open spec fn collect_some<A, B>(s: Seq<A>, f: spec_fn(A) -> Option<B>) -> Seq<B>
    decreases s.len(),
{
    if s.len() == 0 {
        Seq::empty()
    } else {
        let prev = collect_some(s.drop_last(), f);
        match f(s.last()) {
            Some(b) => prev.push(b),
            None => prev,
        }
    }
}

// ----------------------------------------------------------------------
// refinements: a pass over the rows, each constraint in turn
// ----------------------------------------------------------------------

/// The table and whether a refinement found a contradiction.
pub type PassState = (Seq<Seq<AbstractInterval>>, bool);

/// The first `k` constraints applied to row `r`; nothing changes after a
/// contradiction.
pub open spec fn row_pass<C>(st: PassState, r: int, cs: Seq<C>, k: int, step: spec_fn(Seq<Seq<AbstractInterval>>, int, C) -> PassState) -> PassState
    decreases k,
{
    if k <= 0 {
        st
    } else {
        let prev = row_pass(st, r, cs, k - 1, step);
        if prev.1 {
            prev
        } else {
            step(prev.0, r, cs[k - 1])
        }
    }
}

/// Every constraint applied to each of the first `n` rows, row by row.
pub open spec fn rows_pass<C>(st: PassState, n: int, cs: Seq<C>, step: spec_fn(Seq<Seq<AbstractInterval>>, int, C) -> PassState) -> PassState
    decreases n,
{
    if n <= 0 {
        st
    } else {
        row_pass(rows_pass(st, n - 1, cs, step), n - 1, cs, cs.len() as int, step)
    }
}

/// Every step of the pass meets `ok` where it is taken.
pub open spec fn row_pass_ok<C>(st: PassState, r: int, cs: Seq<C>, k: int, step: spec_fn(Seq<Seq<AbstractInterval>>, int, C) -> PassState, ok: spec_fn(Seq<Seq<AbstractInterval>>, int, C) -> bool) -> bool
    decreases k,
{
    if k <= 0 {
        true
    } else {
        let prev = row_pass(st, r, cs, k - 1, step);
        row_pass_ok(st, r, cs, k - 1, step, ok) && (prev.1 || ok(prev.0, r, cs[k - 1]))
    }
}

pub open spec fn rows_pass_ok<C>(st: PassState, n: int, cs: Seq<C>, step: spec_fn(Seq<Seq<AbstractInterval>>, int, C) -> PassState, ok: spec_fn(Seq<Seq<AbstractInterval>>, int, C) -> bool) -> bool
    decreases n,
{
    if n <= 0 {
        true
    } else {
        rows_pass_ok(st, n - 1, cs, step, ok) && row_pass_ok(rows_pass(st, n - 1, cs, step), n - 1, cs, cs.len() as int, step, ok)
    }
}

proof fn lemma_row_pass_stays<C>(st: PassState, r: int, cs: Seq<C>, j: int, k: int, step: spec_fn(Seq<Seq<AbstractInterval>>, int, C) -> PassState)
    requires
        0 <= j <= k,
        row_pass(st, r, cs, j, step).1,
    ensures
        row_pass(st, r, cs, k, step) == row_pass(st, r, cs, j, step),
    decreases k - j,
{
    if k > j {
        lemma_row_pass_stays(st, r, cs, j, k - 1, step);
    }
}

proof fn lemma_row_pass_failed<C>(st: PassState, r: int, cs: Seq<C>, k: int, step: spec_fn(Seq<Seq<AbstractInterval>>, int, C) -> PassState)
    requires
        0 <= k,
        st.1,
    ensures
        row_pass(st, r, cs, k, step) == st,
    decreases k,
{
    if k > 0 {
        lemma_row_pass_failed(st, r, cs, k - 1, step);
    }
}

proof fn lemma_rows_pass_stays<C>(st: PassState, n: int, m: int, cs: Seq<C>, step: spec_fn(Seq<Seq<AbstractInterval>>, int, C) -> PassState)
    requires
        0 <= n <= m,
        rows_pass(st, n, cs, step).1,
    ensures
        rows_pass(st, m, cs, step) == rows_pass(st, n, cs, step),
    decreases m - n,
{
    if m > n {
        lemma_rows_pass_stays(st, n, m - 1, cs, step);
        lemma_row_pass_failed(rows_pass(st, m - 1, cs, step), m - 1, cs, cs.len() as int, step);
    }
}

proof fn lemma_row_pass_ok_prefix<C>(st: PassState, r: int, cs: Seq<C>, j: int, k: int, step: spec_fn(Seq<Seq<AbstractInterval>>, int, C) -> PassState, ok: spec_fn(Seq<Seq<AbstractInterval>>, int, C) -> bool)
    requires
        0 <= j <= k,
        row_pass_ok(st, r, cs, k, step, ok),
    ensures
        row_pass_ok(st, r, cs, j, step, ok),
    decreases k - j,
{
    if k > j {
        lemma_row_pass_ok_prefix(st, r, cs, j, k - 1, step, ok);
    }
}

proof fn lemma_rows_pass_ok_prefix<C>(st: PassState, n: int, m: int, cs: Seq<C>, step: spec_fn(Seq<Seq<AbstractInterval>>, int, C) -> PassState, ok: spec_fn(Seq<Seq<AbstractInterval>>, int, C) -> bool)
    requires
        0 <= n <= m,
        rows_pass_ok(st, m, cs, step, ok),
    ensures
        rows_pass_ok(st, n, cs, step, ok),
    decreases m - n,
{
    if m > n {
        lemma_rows_pass_ok_prefix(st, n, m - 1, cs, step, ok);
    }
}

/// A selector cell that fires: the single value 1.
pub open spec fn fires(x: AbstractInterval) -> bool {
    x.lo == x.hi && x.lo == 1
}

pub open spec fn single(v: i128) -> AbstractInterval {
    AbstractInterval { lo: v, hi: v }
}

/// Row `r` with cell `j` narrowed to its common part with `t`, or a
/// contradiction when they do not meet.
pub open spec fn narrow(rows: Seq<Seq<AbstractInterval>>, r: int, j: int, t: AbstractInterval) -> PassState {
    match rows[r][j].spec_intersect(t) {
        Some(x) => (rows.update(r, rows[r].update(j, x)), false),
        None => (rows, true),
    }
}

/// Every row of the table has more than `j` cells.
pub open spec fn all_rows_have(rows: Seq<Seq<AbstractInterval>>, j: int) -> bool {
    forall|r: int| 0 <= r < rows.len() ==> j < (#[trigger] rows[r]).len()
}

/// Two tables have the same number of rows and row lengths.
pub open spec fn same_shape(a: Seq<Seq<AbstractInterval>>, b: Seq<Seq<AbstractInterval>>) -> bool {
    a.len() == b.len() && forall|r: int| 0 <= r < a.len() ==> (#[trigger] a[r]).len() == b[r].len()
}

/// Narrows cell `(r, j)` to its common part with `t`; `true` on a contradiction.
fn narrow_cell(trace: &mut AbstractTrace, r: usize, j: usize, t: AbstractInterval) -> (failed: bool)
    requires
        r < old(trace).data@.len(),
        j < old(trace).data@[r as int]@.len(),
    ensures
        (final(trace).rows(), failed) == narrow(old(trace).rows(), r as int, j as int, t),
        final(trace).data@.len() == old(trace).data@.len(),
        final(trace).singleton_positions@ == old(trace).singleton_positions@,
{
    proof {
        assert(old(trace).rows()[r as int] == old(trace).data@[r as int]@);
    }
    match trace.data[r][j].intersect(&t) {
        Some(x) => {
            trace.set_cell(r, j, x);
            false
        },
        None => true,
    }
}

// ----------------------------------------------------------------------
// selector * (curr[v] - k)
// ----------------------------------------------------------------------

/// `s * (curr[v] - k)` (either order of the product, either order of the
/// difference), with `s != v`: `(s, v, k)`.
pub open spec fn cond_var_sub_const(c: ZEBRASymbolicExpr) -> Option<(usize, usize, i128)> {
    match c {
        ZEBRASymbolicExpr::Mul(l, r) => {
            let first = match (spec_curr_i(*l), spec_curr_i_sub_const(*r)) {
                (Some(s), Some((v, t))) => if s != v {
                    Some((s, v, t))
                } else {
                    None
                },
                _ => None,
            };
            match first {
                Some(x) => Some(x),
                None => match (spec_curr_i(*r), spec_curr_i_sub_const(*l)) {
                    (Some(s), Some((v, t))) => if s != v {
                        Some((s, v, t))
                    } else {
                        None
                    },
                    _ => None,
                },
            }
        },
        _ => None,
    }
}

pub open spec fn cond_var_sub_const_fn() -> spec_fn(ZEBRASymbolicExpr) -> Option<(usize, usize, i128)> {
    |c: ZEBRASymbolicExpr| cond_var_sub_const(c)
}

fn match_var_sub_const(c: &ZEBRASymbolicExpr, prime: u32) -> (r: Option<(usize, usize, i128)>)
    ensures
        r == cond_var_sub_const(*c),
{
    if let ZEBRASymbolicExpr::Mul(lhs_expr, rhs_expr) = c {
        if let Some(s_idx) = get_curr_i(lhs_expr) {
            if let Some((v_idx, target)) = get_curr_i_sub_const(rhs_expr, prime) {
                if s_idx != v_idx {
                    return Some((s_idx, v_idx, target));
                }
            }
        }
        if let Some(s_idx) = get_curr_i(rhs_expr) {
            if let Some((v_idx, target)) = get_curr_i_sub_const(lhs_expr, prime) {
                if s_idx != v_idx {
                    return Some((s_idx, v_idx, target));
                }
            }
        }
    }
    None
}

/// The selector-gated constant assignments `s * (curr[v] - k)` among the
/// constraints, in order (see `cond_var_sub_const`).
pub fn detect_conditional_var_sub_const_constraints(constraints: &[ZEBRASymbolicExpr], prime: u32) -> (r: Vec<(usize, usize, i128)>)
    ensures
        r@ == collect_some(constraints@, cond_var_sub_const_fn()),
{
    let mut out: Vec<(usize, usize, i128)> = Vec::new();
    let mut i: usize = 0;
    proof {
        assert(constraints@.take(0) =~= Seq::<ZEBRASymbolicExpr>::empty());
    }
    while i < constraints.len()
        invariant
            i <= constraints@.len(),
            out@ == collect_some(constraints@.take(i as int), cond_var_sub_const_fn()),
        decreases constraints.len() - i,
    {
        proof {
            assert(constraints@.take(i as int + 1).drop_last() =~= constraints@.take(i as int));
        }
        if let Some(t) = match_var_sub_const(&constraints[i], prime) {
            out.push(t);
        }
        i += 1;
    }
    proof {
        assert(constraints@.take(constraints@.len() as int) =~= constraints@);
    }
    out
}

/// `s * (sum of variables - k)` (either order of the product and of the
/// difference), with `s` not among the (at least one) summed columns:
/// `(s, columns, k)`.
pub open spec fn cond_addvars_sub_const(c: ZEBRASymbolicExpr) -> Option<(usize, Set<usize>, i128)> {
    match c {
        ZEBRASymbolicExpr::Mul(l, r) => {
            let first = match (spec_curr_i(*l), spec_add_vars_sub_const(*r)) {
                (Some(s), Some((vs, t))) => if !vs.contains(s) && vs.len() > 0 {
                    Some((s, vs, t))
                } else {
                    None
                },
                _ => None,
            };
            match first {
                Some(x) => Some(x),
                None => match (spec_curr_i(*r), spec_add_vars_sub_const(*l)) {
                    (Some(s), Some((vs, t))) => if !vs.contains(s) && vs.len() > 0 {
                        Some((s, vs, t))
                    } else {
                        None
                    },
                    _ => None,
                },
            }
        },
        _ => None,
    }
}

pub open spec fn cond_addvars_sub_const_fn() -> spec_fn(ZEBRASymbolicExpr) -> Option<(usize, Set<usize>, i128)> {
    |c: ZEBRASymbolicExpr| cond_addvars_sub_const(c)
}

/// The entries hold, in order, the selector, the columns (each once, in no
/// promised order) and the constant of the matches.
pub open spec fn entries_match(out: Seq<(usize, Vec<usize>, i128)>, m: Seq<(usize, Set<usize>, i128)>) -> bool {
    &&& out.len() == m.len()
    &&& forall|k: int|
        0 <= k < out.len() ==> {
            &&& (#[trigger] out[k]).0 == m[k].0
            &&& out[k].1@.no_duplicates()
            &&& out[k].1@.to_set() == m[k].1
            &&& out[k].2 == m[k].2
        }
}

fn vec_contains(v: &Vec<usize>, x: usize) -> (r: bool)
    ensures
        r == v@.contains(x),
{
    let mut i: usize = 0;
    while i < v.len()
        invariant
            i <= v.len(),
            forall|j: int| 0 <= j < i ==> v@[j] != x,
        decreases v.len() - i,
    {
        if v[i] == x {
            return true;
        }
        i += 1;
    }
    false
}

proof fn lemma_nodup_set_len(s: Seq<usize>)
    requires
        s.no_duplicates(),
    ensures
        s.to_set().len() == s.len(),
        s.to_set().finite(),
{
    s.unique_seq_to_set();
}

fn match_addvars_sub_const(c: &ZEBRASymbolicExpr, prime: u32) -> (r: Option<(usize, Vec<usize>, i128)>)
    ensures
        match (r, cond_addvars_sub_const(*c)) {
            (Some(x), Some(y)) => x.0 == y.0 && x.1@.no_duplicates() && x.1@.to_set() == y.1 && x.2 == y.2,
            (None, None) => true,
            _ => false,
        },
{
    if let ZEBRASymbolicExpr::Mul(lhs_expr, rhs_expr) = c {
        if let Some(s_idx) = get_curr_i(lhs_expr) {
            if let Some((vs, target)) = get_curr_add_vars_sub_const(rhs_expr, prime) {
                proof {
                    lemma_nodup_set_len(vs@);
                }
                if !vec_contains(&vs, s_idx) && vs.len() != 0 {
                    return Some((s_idx, vs, target));
                }
            }
        }
        if let Some(s_idx) = get_curr_i(rhs_expr) {
            if let Some((vs, target)) = get_curr_add_vars_sub_const(lhs_expr, prime) {
                proof {
                    lemma_nodup_set_len(vs@);
                }
                if !vec_contains(&vs, s_idx) && vs.len() != 0 {
                    return Some((s_idx, vs, target));
                }
            }
        }
    }
    None
}

/// The selector-gated sums `s * (x1 + ... + xn - k)` among the constraints,
/// in order (see `cond_addvars_sub_const`).
pub fn detect_conditional_addvars_sub_const_constraints(constraints: &[ZEBRASymbolicExpr], prime: u32) -> (r: Vec<(usize, Vec<usize>, i128)>)
    ensures
        entries_match(r@, collect_some(constraints@, cond_addvars_sub_const_fn())),
{
    let mut out: Vec<(usize, Vec<usize>, i128)> = Vec::new();
    let mut i: usize = 0;
    proof {
        assert(constraints@.take(0) =~= Seq::<ZEBRASymbolicExpr>::empty());
    }
    while i < constraints.len()
        invariant
            i <= constraints@.len(),
            entries_match(out@, collect_some(constraints@.take(i as int), cond_addvars_sub_const_fn())),
        decreases constraints.len() - i,
    {
        proof {
            assert(constraints@.take(i as int + 1).drop_last() =~= constraints@.take(i as int));
        }
        let ghost before = out@;
        if let Some(t) = match_addvars_sub_const(&constraints[i], prime) {
            out.push(t);
            proof {
                let m = collect_some(constraints@.take(i as int + 1), cond_addvars_sub_const_fn());
                assert forall|k: int| 0 <= k < out@.len() implies {
                    &&& (#[trigger] out@[k]).0 == m[k].0
                    &&& out@[k].1@.no_duplicates()
                    &&& out@[k].1@.to_set() == m[k].1
                    &&& out@[k].2 == m[k].2
                } by {
                    if k < before.len() {
                        assert(out@[k] == before[k]);
                    }
                }
            }
        }
        i += 1;
    }
    proof {
        assert(constraints@.take(constraints@.len() as int) =~= constraints@);
    }
    out
}

/// One gated constant assignment on row `r`: when the selector fires, the
/// value cell is narrowed to the constant.
pub open spec fn step_var_sub_const(rows: Seq<Seq<AbstractInterval>>, r: int, c: (usize, usize, i128)) -> PassState {
    if fires(rows[r][c.0 as int]) {
        narrow(rows, r, c.1 as int, single(c.2))
    } else {
        (rows, false)
    }
}

pub open spec fn step_var_sub_const_fn() -> spec_fn(Seq<Seq<AbstractInterval>>, int, (usize, usize, i128)) -> PassState {
    |rows: Seq<Seq<AbstractInterval>>, r: int, c: (usize, usize, i128)| step_var_sub_const(rows, r, c)
}

/// Applies the gated constant assignments row by row (see
/// `step_var_sub_const`): `False` at the first contradiction, `MayBe`
/// otherwise.
pub fn refine_conditional_constraints_var_sub_const(trace: &mut AbstractTrace, const_constraints: &[(usize, usize, i128)]) -> (r: MayBeFlag)
    requires
        forall|k: int| 0 <= k < const_constraints@.len() ==> all_rows_have(old(trace).rows(), (#[trigger] const_constraints@[k]).0 as int)
            && all_rows_have(old(trace).rows(), const_constraints@[k].1 as int),
    ensures
        ({
            let res = rows_pass((old(trace).rows(), false), old(trace).data@.len() as int, const_constraints@, step_var_sub_const_fn());
            &&& final(trace).rows() == res.0
            &&& r == if res.1 {
                MayBeFlag::False
            } else {
                MayBeFlag::MayBe
            }
        }),
        final(trace).singleton_positions@ == old(trace).singleton_positions@,
{
    let ghost st0: PassState = (trace.rows(), false);
    let ghost cs = const_constraints@;
    let n = trace.data.len();
    let m = const_constraints.len();
    let mut r: usize = 0;
    while r < n
        invariant
            n == trace.data@.len(),
            n == old(trace).data@.len(),
            m == cs.len(),
            cs == const_constraints@,
            st0 == (old(trace).rows(), false),
            same_shape(trace.rows(), st0.0),
            forall|k: int| 0 <= k < cs.len() ==> all_rows_have(st0.0, (#[trigger] cs[k]).0 as int) && all_rows_have(st0.0, cs[k].1 as int),
            trace.singleton_positions@ == old(trace).singleton_positions@,
            r <= n,
            rows_pass(st0, r as int, cs, step_var_sub_const_fn()) == (trace.rows(), false),
        decreases n - r,
    {
        let ghost st_r = rows_pass(st0, r as int, cs, step_var_sub_const_fn());
        let mut k: usize = 0;
        while k < m
            invariant
                n == trace.data@.len(),
                n == old(trace).data@.len(),
                st0 == (old(trace).rows(), false),
                m == cs.len(),
                cs == const_constraints@,
                r < n,
                same_shape(trace.rows(), st0.0),
                forall|k2: int| 0 <= k2 < cs.len() ==> all_rows_have(st0.0, (#[trigger] cs[k2]).0 as int) && all_rows_have(st0.0, cs[k2].1 as int),
                trace.singleton_positions@ == old(trace).singleton_positions@,
                k <= m,
                st_r == rows_pass(st0, r as int, cs, step_var_sub_const_fn()),
                row_pass(st_r, r as int, cs, k as int, step_var_sub_const_fn()) == (trace.rows(), false),
            decreases m - k,
        {
            let (sel_idx, val_idx, target) = const_constraints[k];
            proof {
                assert(cs[k as int] == (sel_idx, val_idx, target));
                assert(trace.rows()[r as int] == trace.data@[r as int]@);
                assert(all_rows_have(st0.0, sel_idx as int));
                assert(all_rows_have(st0.0, val_idx as int));
            }
            let ghost before = trace.rows();
            let sel = trace.data[r][sel_idx];
            let mut failed = false;
            if sel.is_singleton() && sel.lo == 1 {
                failed = narrow_cell(trace, r, val_idx, AbstractInterval::from_i128(target));
            }
            proof {
                assert((trace.rows(), failed) == step_var_sub_const(before, r as int, cs[k as int]));
            }
            proof {
                assert(step_var_sub_const_fn()(before, r as int, cs[k as int]) == step_var_sub_const(before, r as int, cs[k as int]));
                assert(row_pass(st_r, r as int, cs, k as int + 1, step_var_sub_const_fn()) == (trace.rows(), failed));
            }
            if failed {
                proof {
                    lemma_row_pass_stays(st_r, r as int, cs, k as int + 1, m as int, step_var_sub_const_fn());
                    assert(rows_pass(st0, r as int + 1, cs, step_var_sub_const_fn()) == row_pass(st_r, r as int, cs, m as int, step_var_sub_const_fn()));
                    lemma_rows_pass_stays(st0, r as int + 1, n as int, cs, step_var_sub_const_fn());
                }
                return MayBeFlag::False;
            }
            k += 1;
        }
        r += 1;
    }
    MayBeFlag::MayBe
}

/// Every column of `idxs` exists in every row.
pub open spec fn all_fit(rows: Seq<Seq<AbstractInterval>>, idxs: Seq<usize>) -> bool {
    forall|k: int, r: int| 0 <= k < idxs.len() && 0 <= r < rows.len() ==> (#[trigger] idxs[k]) < (#[trigger] rows[r]).len()
}

proof fn lemma_fit_shape(a: Seq<Seq<AbstractInterval>>, b: Seq<Seq<AbstractInterval>>, idxs: Seq<usize>)
    requires
        same_shape(a, b),
        all_fit(b, idxs),
    ensures
        all_fit(a, idxs),
{
    assert forall|k: int, r: int| 0 <= k < idxs.len() && 0 <= r < a.len() implies (#[trigger] idxs[k]) < (#[trigger] a[r]).len() by {
        assert(a[r].len() == b[r].len());
        assert(idxs[k] < b[r].len());
    }
}

proof fn lemma_narrow_shape(rows: Seq<Seq<AbstractInterval>>, r: int, j: int, t: AbstractInterval)
    requires
        0 <= r < rows.len(),
        0 <= j < rows[r].len(),
    ensures
        same_shape(narrow(rows, r, j, t).0, rows),
{
    let x = narrow(rows, r, j, t).0;
    assert forall|q: int| 0 <= q < x.len() implies (#[trigger] x[q]).len() == rows[q].len() by {
        if q == r {
        }
    }
}


// ----------------------------------------------------------------------
// selector * (curr[a] - curr[b])
// ----------------------------------------------------------------------

/// `s * (curr[a] - curr[b])` (either order of the product): `(s, a, b)`.
pub open spec fn cond_var_sub_var(c: ZEBRASymbolicExpr) -> Option<(usize, usize, usize)> {
    match c {
        ZEBRASymbolicExpr::Mul(l, r) => match (spec_curr_i(*l), spec_curr_i_sub_cur_j(*r)) {
            (Some(s), Some((a, b))) => Some((s, a, b)),
            _ => match (spec_curr_i(*r), spec_curr_i_sub_cur_j(*l)) {
                (Some(s), Some((a, b))) => Some((s, a, b)),
                _ => None,
            },
        },
        _ => None,
    }
}

pub open spec fn cond_var_sub_var_fn() -> spec_fn(ZEBRASymbolicExpr) -> Option<(usize, usize, usize)> {
    |c: ZEBRASymbolicExpr| cond_var_sub_var(c)
}

fn match_var_sub_var(c: &ZEBRASymbolicExpr) -> (r: Option<(usize, usize, usize)>)
    ensures
        r == cond_var_sub_var(*c),
{
    if let ZEBRASymbolicExpr::Mul(lhs_expr, rhs_expr) = c {
        if let Some(s_idx) = get_curr_i(lhs_expr) {
            if let Some((a_idx, b_idx)) = get_curr_i_sub_cur_j(rhs_expr) {
                return Some((s_idx, a_idx, b_idx));
            }
        }
        if let Some(s_idx) = get_curr_i(rhs_expr) {
            if let Some((a_idx, b_idx)) = get_curr_i_sub_cur_j(lhs_expr) {
                return Some((s_idx, a_idx, b_idx));
            }
        }
    }
    None
}

/// The selector-gated equalities `s * (curr[a] - curr[b])` among the
/// constraints, in order (see `cond_var_sub_var`).
pub fn detect_conditional_var_sub_var_constraints(constraints: &[ZEBRASymbolicExpr]) -> (r: Vec<(usize, usize, usize)>)
    ensures
        r@ == collect_some(constraints@, cond_var_sub_var_fn()),
{
    let mut out: Vec<(usize, usize, usize)> = Vec::new();
    let mut i: usize = 0;
    proof {
        assert(constraints@.take(0) =~= Seq::<ZEBRASymbolicExpr>::empty());
    }
    while i < constraints.len()
        invariant
            i <= constraints@.len(),
            out@ == collect_some(constraints@.take(i as int), cond_var_sub_var_fn()),
        decreases constraints.len() - i,
    {
        proof {
            assert(constraints@.take(i as int + 1).drop_last() =~= constraints@.take(i as int));
        }
        if let Some(t) = match_var_sub_var(&constraints[i]) {
            out.push(t);
        }
        i += 1;
    }
    proof {
        assert(constraints@.take(constraints@.len() as int) =~= constraints@);
    }
    out
}

pub open spec fn idx_vsv(c: (usize, usize, usize)) -> Seq<usize> {
    seq![c.0, c.1, c.2]
}

/// One gated equality on row `r`: when the selector fires, both cells are
/// narrowed to their common part, or a contradiction when they do not meet.
pub open spec fn step_var_sub_var(rows: Seq<Seq<AbstractInterval>>, r: int, c: (usize, usize, usize)) -> PassState {
    if fires(rows[r][c.0 as int]) {
        match rows[r][c.1 as int].spec_intersect(rows[r][c.2 as int]) {
            Some(x) => (rows.update(r, rows[r].update(c.1 as int, x).update(c.2 as int, x)), false),
            None => (rows, true),
        }
    } else {
        (rows, false)
    }
}

pub open spec fn step_var_sub_var_fn() -> spec_fn(Seq<Seq<AbstractInterval>>, int, (usize, usize, usize)) -> PassState {
    |rows: Seq<Seq<AbstractInterval>>, r: int, c: (usize, usize, usize)| step_var_sub_var(rows, r, c)
}

fn exec_var_sub_var(trace: &mut AbstractTrace, r: usize, c: &(usize, usize, usize)) -> (failed: bool)
    requires
        r < old(trace).data@.len(),
        all_fit(old(trace).rows(), idx_vsv(*c)),
    ensures
        (final(trace).rows(), failed) == step_var_sub_var(old(trace).rows(), r as int, *c),
        same_shape(final(trace).rows(), old(trace).rows()),
        final(trace).data@.len() == old(trace).data@.len(),
        final(trace).singleton_positions@ == old(trace).singleton_positions@,
{
    let ghost rows = trace.rows();
    let (s, a, b) = *c;
    proof {
        assert(idx_vsv(*c)[0] == s && idx_vsv(*c)[1] == a && idx_vsv(*c)[2] == b);
        assert(rows[r as int] == trace.data@[r as int]@);
        assert(s < rows[r as int].len() && a < rows[r as int].len() && b < rows[r as int].len());
    }
    let sel = trace.data[r][s];
    if sel.is_singleton() && sel.lo == 1 {
        let av = trace.data[r][a];
        let bv = trace.data[r][b];
        match av.intersect(&bv) {
            Some(x) => {
                trace.set_cell(r, a, x);
                trace.set_cell(r, b, x);
                proof {
                    assert(trace.rows() =~= rows.update(r as int, rows[r as int].update(a as int, x).update(b as int, x)));
                }
                false
            },
            None => true,
        }
    } else {
        false
    }
}

// ----------------------------------------------------------------------
// (s1 * s2) * body with selectors of either polarity
// ----------------------------------------------------------------------

/// A selector of polarity `inv` fires: the single value 0 when inverted,
/// 1 otherwise.
pub open spec fn fires_pol(x: AbstractInterval, inv: bool) -> bool {
    x.lo == x.hi && if inv {
        x.lo == 0
    } else {
        x.lo == 1
    }
}

fn double_sel_fires(row: &Vec<AbstractInterval>, s_idx: usize, s_inv: bool) -> (r: bool)
    requires
        s_idx < row@.len(),
    ensures
        r == fires_pol(row@[s_idx as int], s_inv),
{
    let sel = row[s_idx];
    if sel.is_singleton() {
        if s_inv {
            sel.lo == 0
        } else {
            sel.lo == 1
        }
    } else {
        false
    }
}

/// The values `f` gives on the elements of `s`, concatenated in order.
pub open spec fn collect_all<A, B>(s: Seq<A>, f: spec_fn(A) -> Seq<B>) -> Seq<B>
    decreases s.len(),
{
    if s.len() == 0 {
        Seq::empty()
    } else {
        collect_all(s.drop_last(), f) + f(s.last())
    }
}

/// `(s1 * s2) * (curr[v] - k)` with the selector product on either side:
/// `(s1, inv1, s2, inv2, v, k)` for a selector side whose factors are
/// selectors, a body that is a current-row variable minus a constant (or a
/// bare variable with `k = 0`), and `v` distinct from both selectors.
pub open spec fn double_sel_vsc_side(sel: ZEBRASymbolicExpr, body: ZEBRASymbolicExpr) -> Seq<(usize, bool, usize, bool, usize, i128)> {
    match sel {
        ZEBRASymbolicExpr::Mul(s1e, s2e) => match (spec_curr_i_with_polarity(*s1e), spec_curr_i_with_polarity(*s2e), spec_curr_i_or_zero(body)) {
            (Some((s1, i1)), Some((s2, i2)), Some((v, t))) => if v != s1 && v != s2 {
                seq![(s1, i1, s2, i2, v, t)]
            } else {
                Seq::empty()
            },
            _ => Seq::empty(),
        },
        _ => Seq::empty(),
    }
}

pub open spec fn double_sel_vsc(c: ZEBRASymbolicExpr) -> Seq<(usize, bool, usize, bool, usize, i128)> {
    match c {
        ZEBRASymbolicExpr::Mul(l, r) => double_sel_vsc_side(*l, *r) + double_sel_vsc_side(*r, *l),
        _ => Seq::empty(),
    }
}

pub open spec fn double_sel_vsc_fn() -> spec_fn(ZEBRASymbolicExpr) -> Seq<(usize, bool, usize, bool, usize, i128)> {
    |c: ZEBRASymbolicExpr| double_sel_vsc(c)
}

fn match_double_sel_vsc_side(sel: &ZEBRASymbolicExpr, body: &ZEBRASymbolicExpr, prime: u32, out: &mut Vec<(usize, bool, usize, bool, usize, i128)>)
    ensures
        final(out)@ == old(out)@ + double_sel_vsc_side(*sel, *body),
{
    if let ZEBRASymbolicExpr::Mul(s1_expr, s2_expr) = sel {
        if let Some((s1_idx, s1_inv)) = get_curr_i_with_polarity(s1_expr) {
            if let Some((s2_idx, s2_inv)) = get_curr_i_with_polarity(s2_expr) {
                if let Some((v_idx, target)) = get_curr_i_or_zero(body, prime) {
                    if v_idx != s1_idx && v_idx != s2_idx {
                        out.push((s1_idx, s1_inv, s2_idx, s2_inv, v_idx, target));
                        return;
                    }
                }
            }
        }
    }
    proof {
        assert(out@ =~= old(out)@ + double_sel_vsc_side(*sel, *body));
    }
}

/// The doubly gated constant assignments among the constraints, in order,
/// each product tried with the selectors on the left and then on the right
/// (see `double_sel_vsc`).
pub fn detect_double_sel_var_sub_const(constraints: &[ZEBRASymbolicExpr], prime: u32) -> (r: Vec<(usize, bool, usize, bool, usize, i128)>)
    ensures
        r@ == collect_all(constraints@, double_sel_vsc_fn()),
{
    let mut out: Vec<(usize, bool, usize, bool, usize, i128)> = Vec::new();
    let mut i: usize = 0;
    proof {
        assert(constraints@.take(0) =~= Seq::<ZEBRASymbolicExpr>::empty());
    }
    while i < constraints.len()
        invariant
            i <= constraints@.len(),
            out@ == collect_all(constraints@.take(i as int), double_sel_vsc_fn()),
        decreases constraints.len() - i,
    {
        proof {
            assert(constraints@.take(i as int + 1).drop_last() =~= constraints@.take(i as int));
        }
        let ghost before = out@;
        if let ZEBRASymbolicExpr::Mul(outer_lhs, outer_rhs) = &constraints[i] {
            match_double_sel_vsc_side(outer_lhs, outer_rhs, prime, &mut out);
            match_double_sel_vsc_side(outer_rhs, outer_lhs, prime, &mut out);
        }
        proof {
            assert(out@ =~= before + double_sel_vsc(constraints@[i as int]));
        }
        i += 1;
    }
    proof {
        assert(constraints@.take(constraints@.len() as int) =~= constraints@);
    }
    out
}

pub open spec fn idx_dsv(c: (usize, bool, usize, bool, usize, i128)) -> Seq<usize> {
    seq![c.0, c.2, c.4]
}

/// One doubly gated constant assignment on row `r`: when both selectors
/// fire, the value cell is narrowed to the constant.
pub open spec fn step_double_sel_vsc(rows: Seq<Seq<AbstractInterval>>, r: int, c: (usize, bool, usize, bool, usize, i128)) -> PassState {
    if fires_pol(rows[r][c.0 as int], c.1) && fires_pol(rows[r][c.2 as int], c.3) {
        narrow(rows, r, c.4 as int, single(c.5))
    } else {
        (rows, false)
    }
}

pub open spec fn step_double_sel_vsc_fn() -> spec_fn(Seq<Seq<AbstractInterval>>, int, (usize, bool, usize, bool, usize, i128)) -> PassState {
    |rows: Seq<Seq<AbstractInterval>>, r: int, c: (usize, bool, usize, bool, usize, i128)| step_double_sel_vsc(rows, r, c)
}

fn exec_double_sel_vsc(trace: &mut AbstractTrace, r: usize, c: &(usize, bool, usize, bool, usize, i128)) -> (failed: bool)
    requires
        r < old(trace).data@.len(),
        all_fit(old(trace).rows(), idx_dsv(*c)),
    ensures
        (final(trace).rows(), failed) == step_double_sel_vsc(old(trace).rows(), r as int, *c),
        same_shape(final(trace).rows(), old(trace).rows()),
        final(trace).data@.len() == old(trace).data@.len(),
        final(trace).singleton_positions@ == old(trace).singleton_positions@,
{
    let ghost rows = trace.rows();
    let (s1, i1, s2, i2, v, t) = *c;
    proof {
        assert(idx_dsv(*c)[0] == s1 && idx_dsv(*c)[1] == s2 && idx_dsv(*c)[2] == v);
        assert(rows[r as int] == trace.data@[r as int]@);
        assert(s1 < rows[r as int].len() && s2 < rows[r as int].len() && v < rows[r as int].len());
    }
    if double_sel_fires(&trace.data[r], s1, i1) && double_sel_fires(&trace.data[r], s2, i2) {
        proof {
            lemma_narrow_shape(rows, r as int, v as int, single(t));
        }
        narrow_cell(trace, r, v, AbstractInterval::from_i128(t))
    } else {
        false
    }
}

/// Applies the gated equalities row by row (see `step_var_sub_var`):
/// `False` at the first contradiction, `MayBe` otherwise.
pub fn refine_conditional_constraints_var_sub_var(trace: &mut AbstractTrace, eq_constraints: &[(usize, usize, usize)]) -> (r: MayBeFlag)
    requires
        forall|k: int| 0 <= k < eq_constraints@.len() ==> #[trigger] all_fit(old(trace).rows(), idx_vsv(eq_constraints@[k])),
    ensures
        ({
            let res = rows_pass((old(trace).rows(), false), old(trace).data@.len() as int, eq_constraints@, step_var_sub_var_fn());
            &&& final(trace).rows() == res.0
            &&& r == if res.1 {
                MayBeFlag::False
            } else {
                MayBeFlag::MayBe
            }
        }),
        final(trace).singleton_positions@ == old(trace).singleton_positions@,
{
    let ghost st0: PassState = (trace.rows(), false);
    let ghost cs = eq_constraints@;
    let n = trace.data.len();
    let m = eq_constraints.len();
    let mut r: usize = 0;
    while r < n
        invariant
            n == trace.data@.len(),
            n == old(trace).data@.len(),
            m == cs.len(),
            cs == eq_constraints@,
            st0 == (old(trace).rows(), false),
            same_shape(trace.rows(), st0.0),
            forall|k: int| 0 <= k < cs.len() ==> #[trigger] all_fit(st0.0, idx_vsv(cs[k])),
            trace.singleton_positions@ == old(trace).singleton_positions@,
            r <= n,
            rows_pass(st0, r as int, cs, step_var_sub_var_fn()) == (trace.rows(), false),
        decreases n - r,
    {
        let ghost st_r = rows_pass(st0, r as int, cs, step_var_sub_var_fn());
        let mut k: usize = 0;
        while k < m
            invariant
                n == trace.data@.len(),
                n == old(trace).data@.len(),
                st0 == (old(trace).rows(), false),
                m == cs.len(),
                cs == eq_constraints@,
                r < n,
                same_shape(trace.rows(), st0.0),
                forall|k2: int| 0 <= k2 < cs.len() ==> #[trigger] all_fit(st0.0, idx_vsv(cs[k2])),
                trace.singleton_positions@ == old(trace).singleton_positions@,
                k <= m,
                st_r == rows_pass(st0, r as int, cs, step_var_sub_var_fn()),
                row_pass(st_r, r as int, cs, k as int, step_var_sub_var_fn()) == (trace.rows(), false),
            decreases m - k,
        {
            let c = &eq_constraints[k];
            let ghost before = trace.rows();
            proof {
                assert(all_fit(st0.0, idx_vsv(cs[k as int])));
                lemma_fit_shape(before, st0.0, idx_vsv(cs[k as int]));
            }
            let failed = exec_var_sub_var(trace, r, c);
            proof {
                assert(step_var_sub_var_fn()(before, r as int, cs[k as int]) == step_var_sub_var(before, r as int, cs[k as int]));
                assert(row_pass(st_r, r as int, cs, k as int + 1, step_var_sub_var_fn()) == (trace.rows(), failed));
            }
            if failed {
                proof {
                    lemma_row_pass_stays(st_r, r as int, cs, k as int + 1, m as int, step_var_sub_var_fn());
                    assert(rows_pass(st0, r as int + 1, cs, step_var_sub_var_fn()) == row_pass(st_r, r as int, cs, m as int, step_var_sub_var_fn()));
                    lemma_rows_pass_stays(st0, r as int + 1, n as int, cs, step_var_sub_var_fn());
                }
                return MayBeFlag::False;
            }
            k += 1;
        }
        r += 1;
    }
    MayBeFlag::MayBe
}

/// Applies the doubly gated constant assignments row by row (see
/// `step_double_sel_vsc`): `False` at the first contradiction, `MayBe` otherwise.
pub fn refine_double_sel_var_sub_const(trace: &mut AbstractTrace, constraints: &[(usize, bool, usize, bool, usize, i128)]) -> (r: MayBeFlag)
    requires
        forall|k: int| 0 <= k < constraints@.len() ==> #[trigger] all_fit(old(trace).rows(), idx_dsv(constraints@[k])),
    ensures
        ({
            let res = rows_pass((old(trace).rows(), false), old(trace).data@.len() as int, constraints@, step_double_sel_vsc_fn());
            &&& final(trace).rows() == res.0
            &&& r == if res.1 {
                MayBeFlag::False
            } else {
                MayBeFlag::MayBe
            }
        }),
        final(trace).singleton_positions@ == old(trace).singleton_positions@,
{
    let ghost st0: PassState = (trace.rows(), false);
    let ghost cs = constraints@;
    let n = trace.data.len();
    let m = constraints.len();
    let mut r: usize = 0;
    while r < n
        invariant
            n == trace.data@.len(),
            n == old(trace).data@.len(),
            m == cs.len(),
            cs == constraints@,
            st0 == (old(trace).rows(), false),
            same_shape(trace.rows(), st0.0),
            forall|k: int| 0 <= k < cs.len() ==> #[trigger] all_fit(st0.0, idx_dsv(cs[k])),
            trace.singleton_positions@ == old(trace).singleton_positions@,
            r <= n,
            rows_pass(st0, r as int, cs, step_double_sel_vsc_fn()) == (trace.rows(), false),
        decreases n - r,
    {
        let ghost st_r = rows_pass(st0, r as int, cs, step_double_sel_vsc_fn());
        let mut k: usize = 0;
        while k < m
            invariant
                n == trace.data@.len(),
                n == old(trace).data@.len(),
                st0 == (old(trace).rows(), false),
                m == cs.len(),
                cs == constraints@,
                r < n,
                same_shape(trace.rows(), st0.0),
                forall|k2: int| 0 <= k2 < cs.len() ==> #[trigger] all_fit(st0.0, idx_dsv(cs[k2])),
                trace.singleton_positions@ == old(trace).singleton_positions@,
                k <= m,
                st_r == rows_pass(st0, r as int, cs, step_double_sel_vsc_fn()),
                row_pass(st_r, r as int, cs, k as int, step_double_sel_vsc_fn()) == (trace.rows(), false),
            decreases m - k,
        {
            let c = &constraints[k];
            let ghost before = trace.rows();
            proof {
                assert(all_fit(st0.0, idx_dsv(cs[k as int])));
                lemma_fit_shape(before, st0.0, idx_dsv(cs[k as int]));
            }
            let failed = exec_double_sel_vsc(trace, r, c);
            proof {
                assert(step_double_sel_vsc_fn()(before, r as int, cs[k as int]) == step_double_sel_vsc(before, r as int, cs[k as int]));
                assert(row_pass(st_r, r as int, cs, k as int + 1, step_double_sel_vsc_fn()) == (trace.rows(), failed));
            }
            if failed {
                proof {
                    lemma_row_pass_stays(st_r, r as int, cs, k as int + 1, m as int, step_double_sel_vsc_fn());
                    assert(rows_pass(st0, r as int + 1, cs, step_double_sel_vsc_fn()) == row_pass(st_r, r as int, cs, m as int, step_double_sel_vsc_fn()));
                    lemma_rows_pass_stays(st0, r as int + 1, n as int, cs, step_double_sel_vsc_fn());
                }
                return MayBeFlag::False;
            }
            k += 1;
        }
        r += 1;
    }
    MayBeFlag::MayBe
}


// ----------------------------------------------------------------------
// gated sums of variables
// ----------------------------------------------------------------------

/// The columns of `vs` whose cell in `row` holds a single value, in order.
pub open spec fn singles_in(row: Seq<AbstractInterval>, vs: Seq<usize>) -> Seq<usize>
    decreases vs.len(),
{
    if vs.len() == 0 {
        Seq::empty()
    } else {
        let p = singles_in(row, vs.drop_last());
        if row[vs.last() as int].lo == row[vs.last() as int].hi {
            p.push(vs.last())
        } else {
            p
        }
    }
}

/// The columns of `vs` whose cell in `row` holds more than one value, in order.
pub open spec fn others_in(row: Seq<AbstractInterval>, vs: Seq<usize>) -> Seq<usize>
    decreases vs.len(),
{
    if vs.len() == 0 {
        Seq::empty()
    } else {
        let p = others_in(row, vs.drop_last());
        if row[vs.last() as int].lo == row[vs.last() as int].hi {
            p
        } else {
            p.push(vs.last())
        }
    }
}

/// `0 + row[idx[0]] + row[idx[1]] + ...`, interval sums left to right.
pub open spec fn sum_cells(row: Seq<AbstractInterval>, idx: Seq<usize>) -> AbstractInterval
    decreases idx.len(),
{
    if idx.len() == 0 {
        AbstractInterval { lo: 0, hi: 0 }
    } else {
        sum_cells(row, idx.drop_last()).spec_add(row[idx.last() as int])
    }
}

/// Every partial sum of `sum_cells` stays within `i128`.
pub open spec fn sum_ok(row: Seq<AbstractInterval>, idx: Seq<usize>) -> bool
    decreases idx.len(),
{
    idx.len() == 0 || (sum_ok(row, idx.drop_last()) && sum_cells(row, idx.drop_last()).add_ok(row[idx.last() as int]))
}

pub(crate) proof fn lemma_partition_lens(row: Seq<AbstractInterval>, vs: Seq<usize>)
    ensures
        singles_in(row, vs).len() + others_in(row, vs).len() == vs.len(),
        (forall|k: int| 0 <= k < vs.len() ==> #[trigger] vs[k] < row.len()) ==> (forall|k: int|
            0 <= k < singles_in(row, vs).len() ==> #[trigger] singles_in(row, vs)[k] < row.len()),
        (forall|k: int| 0 <= k < vs.len() ==> #[trigger] vs[k] < row.len()) ==> (forall|k: int|
            0 <= k < others_in(row, vs).len() ==> #[trigger] others_in(row, vs)[k] < row.len()),
    decreases vs.len(),
{
    if vs.len() > 0 {
        lemma_partition_lens(row, vs.drop_last());
        if forall|k: int| 0 <= k < vs.len() ==> #[trigger] vs[k] < row.len() {
            assert forall|k: int| 0 <= k < vs.drop_last().len() implies #[trigger] vs.drop_last()[k] < row.len() by {
                assert(vs.drop_last()[k] == vs[k]);
            }
            assert(vs.last() == vs[vs.len() - 1]);
        }
    }
}

/// Splits the columns into those whose cell holds a single value and the others.
fn partition_cells(row: &Vec<AbstractInterval>, vs: &Vec<usize>) -> (r: (Vec<usize>, Vec<usize>))
    requires
        forall|k: int| 0 <= k < vs@.len() ==> #[trigger] vs@[k] < row@.len(),
    ensures
        r.0@ == singles_in(row@, vs@),
        r.1@ == others_in(row@, vs@),
{
    let mut singles: Vec<usize> = Vec::new();
    let mut others: Vec<usize> = Vec::new();
    let mut i: usize = 0;
    proof {
        assert(vs@.take(0) =~= Seq::<usize>::empty());
    }
    while i < vs.len()
        invariant
            forall|k: int| 0 <= k < vs@.len() ==> #[trigger] vs@[k] < row@.len(),
            i <= vs@.len(),
            singles@ == singles_in(row@, vs@.take(i as int)),
            others@ == others_in(row@, vs@.take(i as int)),
        decreases vs.len() - i,
    {
        proof {
            assert(vs@.take(i as int + 1).drop_last() =~= vs@.take(i as int));
            assert(vs@.take(i as int + 1).last() == vs@[i as int]);
        }
        let v = vs[i];
        if row[v].is_singleton() {
            singles.push(v);
        } else {
            others.push(v);
        }
        i += 1;
    }
    proof {
        assert(vs@.take(vs@.len() as int) =~= vs@);
    }
    (singles, others)
}

/// The interval sum of the cells of the columns.
fn sum_of_cells(row: &Vec<AbstractInterval>, idx: &Vec<usize>) -> (r: AbstractInterval)
    requires
        forall|k: int| 0 <= k < idx@.len() ==> #[trigger] idx@[k] < row@.len(),
        sum_ok(row@, idx@),
    ensures
        r == sum_cells(row@, idx@),
{
    let mut acc = AbstractInterval::zero();
    let mut i: usize = 0;
    proof {
        assert(idx@.take(0) =~= Seq::<usize>::empty());
    }
    while i < idx.len()
        invariant
            forall|k: int| 0 <= k < idx@.len() ==> #[trigger] idx@[k] < row@.len(),
            sum_ok(row@, idx@),
            i <= idx@.len(),
            acc == sum_cells(row@, idx@.take(i as int)),
        decreases idx.len() - i,
    {
        proof {
            assert(idx@.take(i as int + 1).drop_last() =~= idx@.take(i as int));
            assert(idx@.take(i as int + 1).last() == idx@[i as int]);
            lemma_sum_ok_prefix(row@, idx@, i as int + 1);
        }
        acc = acc.plus(row[idx[i]]);
        i += 1;
    }
    proof {
        assert(idx@.take(idx@.len() as int) =~= idx@);
    }
    acc
}

proof fn lemma_sum_ok_prefix(row: Seq<AbstractInterval>, idx: Seq<usize>, j: int)
    requires
        0 <= j <= idx.len(),
        sum_ok(row, idx),
    ensures
        sum_ok(row, idx.take(j)),
    decreases idx.len(),
{
    if j < idx.len() {
        assert(idx.drop_last().take(j) =~= idx.take(j));
        lemma_sum_ok_prefix(row, idx.drop_last(), j);
    } else {
        assert(idx.take(j) =~= idx);
    }
}

pub open spec fn idx_avs(c: (usize, Vec<usize>, i128)) -> Seq<usize> {
    seq![c.0] + c.1@
}

/// One gated sum on row `r`: when the selector fires and exactly one summed
/// cell holds more than one value while at least one holds a single value,
/// that cell is narrowed to the constant minus the sum of the others.
pub open spec fn step_addvars(rows: Seq<Seq<AbstractInterval>>, r: int, c: (usize, Vec<usize>, i128)) -> PassState {
    let row = rows[r];
    let si = singles_in(row, c.1@);
    let ns = others_in(row, c.1@);
    if fires(row[c.0 as int]) && ns.len() == 1 && si.len() >= 1 {
        narrow(rows, r, ns[0] as int, single(c.2).spec_sub(sum_cells(row, si)))
    } else {
        (rows, false)
    }
}

pub open spec fn step_addvars_fn() -> spec_fn(Seq<Seq<AbstractInterval>>, int, (usize, Vec<usize>, i128)) -> PassState {
    |rows: Seq<Seq<AbstractInterval>>, r: int, c: (usize, Vec<usize>, i128)| step_addvars(rows, r, c)
}

/// The sums of a gated-sum step stay within `i128`.
pub open spec fn ok_addvars(rows: Seq<Seq<AbstractInterval>>, r: int, c: (usize, Vec<usize>, i128)) -> bool {
    let row = rows[r];
    let si = singles_in(row, c.1@);
    let ns = others_in(row, c.1@);
    fires(row[c.0 as int]) && ns.len() == 1 && si.len() >= 1 ==> sum_ok(row, si) && single(c.2).sub_ok(sum_cells(row, si))
}

pub open spec fn ok_addvars_fn() -> spec_fn(Seq<Seq<AbstractInterval>>, int, (usize, Vec<usize>, i128)) -> bool {
    |rows: Seq<Seq<AbstractInterval>>, r: int, c: (usize, Vec<usize>, i128)| ok_addvars(rows, r, c)
}

proof fn lemma_fit_parts(rows: Seq<Seq<AbstractInterval>>, r: int, head: Seq<usize>, vs: Seq<usize>)
    requires
        0 <= r < rows.len(),
        all_fit(rows, head + vs),
    ensures
        forall|k: int| 0 <= k < vs.len() ==> #[trigger] vs[k] < rows[r].len(),
        forall|k: int| 0 <= k < head.len() ==> #[trigger] head[k] < rows[r].len(),
{
    assert forall|k: int| 0 <= k < vs.len() implies #[trigger] vs[k] < rows[r].len() by {
        assert((head + vs)[head.len() + k] == vs[k]);
    }
    assert forall|k: int| 0 <= k < head.len() implies #[trigger] head[k] < rows[r].len() by {
        assert((head + vs)[k] == head[k]);
    }
}

fn exec_addvars(trace: &mut AbstractTrace, r: usize, c: &(usize, Vec<usize>, i128)) -> (failed: bool)
    requires
        r < old(trace).data@.len(),
        all_fit(old(trace).rows(), idx_avs(*c)),
        ok_addvars(old(trace).rows(), r as int, *c),
    ensures
        (final(trace).rows(), failed) == step_addvars(old(trace).rows(), r as int, *c),
        same_shape(final(trace).rows(), old(trace).rows()),
        final(trace).data@.len() == old(trace).data@.len(),
        final(trace).singleton_positions@ == old(trace).singleton_positions@,
{
    let ghost rows = trace.rows();
    let s = c.0;
    let target = c.2;
    proof {
        lemma_fit_parts(rows, r as int, seq![s], c.1@);
        assert(seq![s][0] == s);
        assert(rows[r as int] == trace.data@[r as int]@);
        lemma_partition_lens(rows[r as int], c.1@);
    }
    let sel = trace.data[r][s];
    if sel.is_singleton() && sel.lo == 1 {
        let (singles, others) = partition_cells(&trace.data[r], &c.1);
        if others.len() == 1 && singles.len() >= 1 {
            let ai = sum_of_cells(&trace.data[r], &singles);
            let t = AbstractInterval::from_i128(target).minus(ai);
            proof {
                lemma_narrow_shape(rows, r as int, others@[0] as int, t);
            }
            return narrow_cell(trace, r, others[0], t);
        }
    }
    false
}

/// `(s1 * s2) * (x1 + ... + xn - k)` with the selector product on either
/// side: the selectors and polarities, the (at least two) columns, none of
/// them a selector, and the constant (0 for a bare sum).
pub open spec fn double_sel_avs_side(sel: ZEBRASymbolicExpr, body: ZEBRASymbolicExpr) -> Seq<(usize, bool, usize, bool, Set<usize>, i128)> {
    match sel {
        ZEBRASymbolicExpr::Mul(s1e, s2e) => match (spec_curr_i_with_polarity(*s1e), spec_curr_i_with_polarity(*s2e), spec_add_vars_or_zero(body)) {
            (Some((s1, i1)), Some((s2, i2)), Some((vs, t))) => if vs.len() >= 2 && !vs.contains(s1) && !vs.contains(s2) {
                seq![(s1, i1, s2, i2, vs, t)]
            } else {
                Seq::empty()
            },
            _ => Seq::empty(),
        },
        _ => Seq::empty(),
    }
}

pub open spec fn double_sel_avs(c: ZEBRASymbolicExpr) -> Seq<(usize, bool, usize, bool, Set<usize>, i128)> {
    match c {
        ZEBRASymbolicExpr::Mul(l, r) => double_sel_avs_side(*l, *r) + double_sel_avs_side(*r, *l),
        _ => Seq::empty(),
    }
}

pub open spec fn double_sel_avs_fn() -> spec_fn(ZEBRASymbolicExpr) -> Seq<(usize, bool, usize, bool, Set<usize>, i128)> {
    |c: ZEBRASymbolicExpr| double_sel_avs(c)
}

/// The entries hold, in order, the selectors and polarities, the columns
/// (each once, in no promised order) and the constant of the matches.
pub open spec fn entries6_match(out: Seq<(usize, bool, usize, bool, Vec<usize>, i128)>, m: Seq<(usize, bool, usize, bool, Set<usize>, i128)>) -> bool {
    &&& out.len() == m.len()
    &&& forall|k: int|
        0 <= k < out.len() ==> {
            &&& (#[trigger] out[k]).0 == m[k].0
            &&& out[k].1 == m[k].1
            &&& out[k].2 == m[k].2
            &&& out[k].3 == m[k].3
            &&& out[k].4@.no_duplicates()
            &&& out[k].4@.to_set() == m[k].4
            &&& out[k].5 == m[k].5
        }
}

fn match_double_sel_avs_side(sel: &ZEBRASymbolicExpr, body: &ZEBRASymbolicExpr, prime: u32, out: &mut Vec<(usize, bool, usize, bool, Vec<usize>, i128)>, Ghost(m): Ghost<Seq<(usize, bool, usize, bool, Set<usize>, i128)>>)
    requires
        entries6_match(old(out)@, m),
    ensures
        entries6_match(final(out)@, m + double_sel_avs_side(*sel, *body)),
{
    if let ZEBRASymbolicExpr::Mul(s1_expr, s2_expr) = sel {
        if let Some((s1_idx, s1_inv)) = get_curr_i_with_polarity(s1_expr) {
            if let Some((s2_idx, s2_inv)) = get_curr_i_with_polarity(s2_expr) {
                if let Some((vs, target)) = get_curr_add_vars_or_zero(body, prime) {
                    proof {
                        lemma_nodup_set_len(vs@);
                    }
                    if vs.len() >= 2 && !vec_contains(&vs, s1_idx) && !vec_contains(&vs, s2_idx) {
                        let ghost before = out@;
                        out.push((s1_idx, s1_inv, s2_idx, s2_inv, vs, target));
                        proof {
                            let mm = m + double_sel_avs_side(*sel, *body);
                            assert forall|k: int| 0 <= k < out@.len() implies {
                                &&& (#[trigger] out@[k]).0 == mm[k].0
                                &&& out@[k].1 == mm[k].1
                                &&& out@[k].2 == mm[k].2
                                &&& out@[k].3 == mm[k].3
                                &&& out@[k].4@.no_duplicates()
                                &&& out@[k].4@.to_set() == mm[k].4
                                &&& out@[k].5 == mm[k].5
                            } by {
                                if k < before.len() {
                                    assert(out@[k] == before[k]);
                                    assert(mm[k] == m[k]);
                                }
                            }
                        }
                        return;
                    }
                }
            }
        }
    }
    proof {
        assert(m + double_sel_avs_side(*sel, *body) =~= m);
    }
}

/// The doubly gated sums among the constraints, in order, each product
/// tried with the selectors on the left and then on the right (see
/// `double_sel_avs`).
pub fn detect_double_sel_addvars_sub_const(constraints: &[ZEBRASymbolicExpr], prime: u32) -> (r: Vec<(usize, bool, usize, bool, Vec<usize>, i128)>)
    ensures
        entries6_match(r@, collect_all(constraints@, double_sel_avs_fn())),
{
    let mut out: Vec<(usize, bool, usize, bool, Vec<usize>, i128)> = Vec::new();
    let mut i: usize = 0;
    proof {
        assert(constraints@.take(0) =~= Seq::<ZEBRASymbolicExpr>::empty());
    }
    while i < constraints.len()
        invariant
            i <= constraints@.len(),
            entries6_match(out@, collect_all(constraints@.take(i as int), double_sel_avs_fn())),
        decreases constraints.len() - i,
    {
        proof {
            assert(constraints@.take(i as int + 1).drop_last() =~= constraints@.take(i as int));
        }
        let ghost m0 = collect_all(constraints@.take(i as int), double_sel_avs_fn());
        if let ZEBRASymbolicExpr::Mul(outer_lhs, outer_rhs) = &constraints[i] {
            match_double_sel_avs_side(outer_lhs, outer_rhs, prime, &mut out, Ghost(m0));
            match_double_sel_avs_side(outer_rhs, outer_lhs, prime, &mut out, Ghost(m0 + double_sel_avs_side(**outer_lhs, **outer_rhs)));
            proof {
                assert(m0 + double_sel_avs_side(**outer_lhs, **outer_rhs) + double_sel_avs_side(**outer_rhs, **outer_lhs)
                    =~= m0 + double_sel_avs(constraints@[i as int]));
            }
        } else {
            proof {
                assert(m0 + double_sel_avs(constraints@[i as int]) =~= m0);
            }
        }
        i += 1;
    }
    proof {
        assert(constraints@.take(constraints@.len() as int) =~= constraints@);
    }
    out
}

pub open spec fn idx_dsa(c: (usize, bool, usize, bool, Vec<usize>, i128)) -> Seq<usize> {
    seq![c.0, c.2] + c.4@
}

/// One doubly gated sum on row `r`: when both selectors fire and exactly one
/// summed cell holds more than one value while some hold a single value,
/// that cell is narrowed to the constant minus the sum of the others; when
/// every summed cell holds a single value, a sum that misses the constant is
/// a contradiction.
pub open spec fn step_double_sel_avs(rows: Seq<Seq<AbstractInterval>>, r: int, c: (usize, bool, usize, bool, Vec<usize>, i128)) -> PassState {
    let row = rows[r];
    let si = singles_in(row, c.4@);
    let ns = others_in(row, c.4@);
    if fires_pol(row[c.0 as int], c.1) && fires_pol(row[c.2 as int], c.3) {
        if ns.len() == 1 && si.len() > 0 {
            narrow(rows, r, ns[0] as int, single(c.5).spec_sub(sum_cells(row, si)))
        } else if ns.len() == 0 {
            (rows, sum_cells(row, c.4@).spec_intersect(single(c.5)) is None)
        } else {
            (rows, false)
        }
    } else {
        (rows, false)
    }
}

pub open spec fn step_double_sel_avs_fn() -> spec_fn(Seq<Seq<AbstractInterval>>, int, (usize, bool, usize, bool, Vec<usize>, i128)) -> PassState {
    |rows: Seq<Seq<AbstractInterval>>, r: int, c: (usize, bool, usize, bool, Vec<usize>, i128)| step_double_sel_avs(rows, r, c)
}

/// The sums of a doubly gated step stay within `i128`.
pub open spec fn ok_double_sel_avs(rows: Seq<Seq<AbstractInterval>>, r: int, c: (usize, bool, usize, bool, Vec<usize>, i128)) -> bool {
    let row = rows[r];
    let si = singles_in(row, c.4@);
    let ns = others_in(row, c.4@);
    fires_pol(row[c.0 as int], c.1) && fires_pol(row[c.2 as int], c.3) ==> {
        &&& ns.len() == 1 && si.len() > 0 ==> sum_ok(row, si) && single(c.5).sub_ok(sum_cells(row, si))
        &&& ns.len() == 0 ==> sum_ok(row, c.4@)
    }
}

pub open spec fn ok_double_sel_avs_fn() -> spec_fn(Seq<Seq<AbstractInterval>>, int, (usize, bool, usize, bool, Vec<usize>, i128)) -> bool {
    |rows: Seq<Seq<AbstractInterval>>, r: int, c: (usize, bool, usize, bool, Vec<usize>, i128)| ok_double_sel_avs(rows, r, c)
}

fn exec_double_sel_avs(trace: &mut AbstractTrace, r: usize, c: &(usize, bool, usize, bool, Vec<usize>, i128)) -> (failed: bool)
    requires
        r < old(trace).data@.len(),
        all_fit(old(trace).rows(), idx_dsa(*c)),
        ok_double_sel_avs(old(trace).rows(), r as int, *c),
    ensures
        (final(trace).rows(), failed) == step_double_sel_avs(old(trace).rows(), r as int, *c),
        same_shape(final(trace).rows(), old(trace).rows()),
        final(trace).data@.len() == old(trace).data@.len(),
        final(trace).singleton_positions@ == old(trace).singleton_positions@,
{
    let ghost rows = trace.rows();
    let s1 = c.0;
    let s2 = c.2;
    let target = c.5;
    proof {
        lemma_fit_parts(rows, r as int, seq![s1, s2], c.4@);
        assert(seq![s1, s2][0] == s1 && seq![s1, s2][1] == s2);
        assert(rows[r as int] == trace.data@[r as int]@);
        lemma_partition_lens(rows[r as int], c.4@);
    }
    if double_sel_fires(&trace.data[r], s1, c.1) && double_sel_fires(&trace.data[r], s2, c.3) {
        let t = AbstractInterval::from_i128(target);
        let (singles, others) = partition_cells(&trace.data[r], &c.4);
        if others.len() == 1 && singles.len() > 0 {
            let sum = sum_of_cells(&trace.data[r], &singles);
            let rem = t.minus(sum);
            proof {
                lemma_narrow_shape(rows, r as int, others@[0] as int, rem);
            }
            return narrow_cell(trace, r, others[0], rem);
        } else if others.len() == 0 {
            let sum = sum_of_cells(&trace.data[r], &c.4);
            return sum.intersect(&t).is_none();
        }
    }
    false
}

/// Applies the gated sums row by row (see `step_addvars`): `False` at the
/// first contradiction, `MayBe` otherwise.
pub fn refine_conditional_constraints_addvars_sub_const(trace: &mut AbstractTrace, const_constraints: &[(usize, Vec<usize>, i128)]) -> (r: MayBeFlag)
    requires
        forall|k: int| 0 <= k < const_constraints@.len() ==> #[trigger] all_fit(old(trace).rows(), idx_avs(const_constraints@[k])),
        rows_pass_ok((old(trace).rows(), false), old(trace).data@.len() as int, const_constraints@, step_addvars_fn(), ok_addvars_fn()),
    ensures
        ({
            let res = rows_pass((old(trace).rows(), false), old(trace).data@.len() as int, const_constraints@, step_addvars_fn());
            &&& final(trace).rows() == res.0
            &&& r == if res.1 {
                MayBeFlag::False
            } else {
                MayBeFlag::MayBe
            }
        }),
        final(trace).singleton_positions@ == old(trace).singleton_positions@,
{
    let ghost st0: PassState = (trace.rows(), false);
    let ghost cs = const_constraints@;
    let n = trace.data.len();
    let m = const_constraints.len();
    let mut r: usize = 0;
    while r < n
        invariant
            n == trace.data@.len(),
            n == old(trace).data@.len(),
            m == cs.len(),
            cs == const_constraints@,
            st0 == (old(trace).rows(), false),
            same_shape(trace.rows(), st0.0),
            forall|k: int| 0 <= k < cs.len() ==> #[trigger] all_fit(st0.0, idx_avs(cs[k])),
            rows_pass_ok(st0, n as int, cs, step_addvars_fn(), ok_addvars_fn()),
            trace.singleton_positions@ == old(trace).singleton_positions@,
            r <= n,
            rows_pass(st0, r as int, cs, step_addvars_fn()) == (trace.rows(), false),
        decreases n - r,
    {
        let ghost st_r = rows_pass(st0, r as int, cs, step_addvars_fn());
        let mut k: usize = 0;
        while k < m
            invariant
                n == trace.data@.len(),
                n == old(trace).data@.len(),
                st0 == (old(trace).rows(), false),
                m == cs.len(),
                cs == const_constraints@,
                r < n,
                same_shape(trace.rows(), st0.0),
                forall|k2: int| 0 <= k2 < cs.len() ==> #[trigger] all_fit(st0.0, idx_avs(cs[k2])),
                rows_pass_ok(st0, n as int, cs, step_addvars_fn(), ok_addvars_fn()),
                trace.singleton_positions@ == old(trace).singleton_positions@,
                k <= m,
                st_r == rows_pass(st0, r as int, cs, step_addvars_fn()),
                row_pass(st_r, r as int, cs, k as int, step_addvars_fn()) == (trace.rows(), false),
            decreases m - k,
        {
            let c = &const_constraints[k];
            let ghost before = trace.rows();
            proof {
                assert(all_fit(st0.0, idx_avs(cs[k as int])));
                lemma_fit_shape(before, st0.0, idx_avs(cs[k as int]));
                lemma_rows_pass_ok_prefix(st0, r as int + 1, n as int, cs, step_addvars_fn(), ok_addvars_fn());
                lemma_row_pass_ok_prefix(st_r, r as int, cs, k as int + 1, m as int, step_addvars_fn(), ok_addvars_fn());
                assert(ok_addvars_fn()(before, r as int, cs[k as int]) == ok_addvars(before, r as int, cs[k as int]));
            }
            let failed = exec_addvars(trace, r, c);
            proof {
                assert(step_addvars_fn()(before, r as int, cs[k as int]) == step_addvars(before, r as int, cs[k as int]));
                assert(row_pass(st_r, r as int, cs, k as int + 1, step_addvars_fn()) == (trace.rows(), failed));
            }
            if failed {
                proof {
                    lemma_row_pass_stays(st_r, r as int, cs, k as int + 1, m as int, step_addvars_fn());
                    assert(rows_pass(st0, r as int + 1, cs, step_addvars_fn()) == row_pass(st_r, r as int, cs, m as int, step_addvars_fn()));
                    lemma_rows_pass_stays(st0, r as int + 1, n as int, cs, step_addvars_fn());
                }
                return MayBeFlag::False;
            }
            k += 1;
        }
        r += 1;
    }
    MayBeFlag::MayBe
}

/// Applies the doubly gated sums row by row (see `step_double_sel_avs`):
/// `False` at the first contradiction, `MayBe` otherwise.
pub fn refine_double_sel_addvars_sub_const(trace: &mut AbstractTrace, constraints: &[(usize, bool, usize, bool, Vec<usize>, i128)]) -> (r: MayBeFlag)
    requires
        forall|k: int| 0 <= k < constraints@.len() ==> #[trigger] all_fit(old(trace).rows(), idx_dsa(constraints@[k])),
        rows_pass_ok((old(trace).rows(), false), old(trace).data@.len() as int, constraints@, step_double_sel_avs_fn(), ok_double_sel_avs_fn()),
    ensures
        ({
            let res = rows_pass((old(trace).rows(), false), old(trace).data@.len() as int, constraints@, step_double_sel_avs_fn());
            &&& final(trace).rows() == res.0
            &&& r == if res.1 {
                MayBeFlag::False
            } else {
                MayBeFlag::MayBe
            }
        }),
        final(trace).singleton_positions@ == old(trace).singleton_positions@,
{
    let ghost st0: PassState = (trace.rows(), false);
    let ghost cs = constraints@;
    let n = trace.data.len();
    let m = constraints.len();
    let mut r: usize = 0;
    while r < n
        invariant
            n == trace.data@.len(),
            n == old(trace).data@.len(),
            m == cs.len(),
            cs == constraints@,
            st0 == (old(trace).rows(), false),
            same_shape(trace.rows(), st0.0),
            forall|k: int| 0 <= k < cs.len() ==> #[trigger] all_fit(st0.0, idx_dsa(cs[k])),
            rows_pass_ok(st0, n as int, cs, step_double_sel_avs_fn(), ok_double_sel_avs_fn()),
            trace.singleton_positions@ == old(trace).singleton_positions@,
            r <= n,
            rows_pass(st0, r as int, cs, step_double_sel_avs_fn()) == (trace.rows(), false),
        decreases n - r,
    {
        let ghost st_r = rows_pass(st0, r as int, cs, step_double_sel_avs_fn());
        let mut k: usize = 0;
        while k < m
            invariant
                n == trace.data@.len(),
                n == old(trace).data@.len(),
                st0 == (old(trace).rows(), false),
                m == cs.len(),
                cs == constraints@,
                r < n,
                same_shape(trace.rows(), st0.0),
                forall|k2: int| 0 <= k2 < cs.len() ==> #[trigger] all_fit(st0.0, idx_dsa(cs[k2])),
                rows_pass_ok(st0, n as int, cs, step_double_sel_avs_fn(), ok_double_sel_avs_fn()),
                trace.singleton_positions@ == old(trace).singleton_positions@,
                k <= m,
                st_r == rows_pass(st0, r as int, cs, step_double_sel_avs_fn()),
                row_pass(st_r, r as int, cs, k as int, step_double_sel_avs_fn()) == (trace.rows(), false),
            decreases m - k,
        {
            let c = &constraints[k];
            let ghost before = trace.rows();
            proof {
                assert(all_fit(st0.0, idx_dsa(cs[k as int])));
                lemma_fit_shape(before, st0.0, idx_dsa(cs[k as int]));
                lemma_rows_pass_ok_prefix(st0, r as int + 1, n as int, cs, step_double_sel_avs_fn(), ok_double_sel_avs_fn());
                lemma_row_pass_ok_prefix(st_r, r as int, cs, k as int + 1, m as int, step_double_sel_avs_fn(), ok_double_sel_avs_fn());
                assert(ok_double_sel_avs_fn()(before, r as int, cs[k as int]) == ok_double_sel_avs(before, r as int, cs[k as int]));
            }
            let failed = exec_double_sel_avs(trace, r, c);
            proof {
                assert(step_double_sel_avs_fn()(before, r as int, cs[k as int]) == step_double_sel_avs(before, r as int, cs[k as int]));
                assert(row_pass(st_r, r as int, cs, k as int + 1, step_double_sel_avs_fn()) == (trace.rows(), failed));
            }
            if failed {
                proof {
                    lemma_row_pass_stays(st_r, r as int, cs, k as int + 1, m as int, step_double_sel_avs_fn());
                    assert(rows_pass(st0, r as int + 1, cs, step_double_sel_avs_fn()) == row_pass(st_r, r as int, cs, m as int, step_double_sel_avs_fn()));
                    lemma_rows_pass_stays(st0, r as int + 1, n as int, cs, step_double_sel_avs_fn());
                }
                return MayBeFlag::False;
            }
            k += 1;
        }
        r += 1;
    }
    MayBeFlag::MayBe
}


// ----------------------------------------------------------------------
// affine backward interval refinement
// ----------------------------------------------------------------------

/// `(a - c) + b` rewritten to `(a + b) - c`; any other expression unchanged.
pub open spec fn spec_move_sub_expr_to_right(e: ZEBRASymbolicExpr) -> ZEBRASymbolicExpr {
    match e {
        ZEBRASymbolicExpr::Add(l1, r1) => match *l1 {
            ZEBRASymbolicExpr::Sub(l2, r2) => ZEBRASymbolicExpr::Sub(Box::new(ZEBRASymbolicExpr::Add(l2, r1)), r2),
            _ => e,
        },
        _ => e,
    }
}

/// Moves a subtraction on the left of a sum to the outside:
/// `(a - c) + b` becomes `(a + b) - c`.
pub fn move_sub_expr_to_right(expr: &ZEBRASymbolicExpr) -> (r: ZEBRASymbolicExpr)
    ensures
        r == spec_move_sub_expr_to_right(*expr),
{
    if let ZEBRASymbolicExpr::Add(lhs_1, rhs_1) = expr {
        if let ZEBRASymbolicExpr::Sub(lhs_2, rhs_2) = &**lhs_1 {
            return ZEBRASymbolicExpr::Sub(
                Box::new(ZEBRASymbolicExpr::Add(Box::new(lhs_2.deep_copy()), Box::new(rhs_1.deep_copy()))),
                Box::new(rhs_2.deep_copy()),
            );
        }
    }
    expr.deep_copy()
}

/// A constraint `a = L - d * e`: the column of `a`, the expression `L`, the
/// column of `e` and the stride `d > 0`.
#[derive(Clone, Debug)]
pub struct AbirConstraint {
    pub lhs_var: usize,
    pub affine_rhs: Box<ZEBRASymbolicExpr>,
    pub quotient_var: usize,
    pub stride: u32,
}

/// The column and the stride of `d * e`, `e * d` or `e` (stride 1), `d` a
/// constant taken in the field.
pub open spec fn scaled_var(e: ZEBRASymbolicExpr, p: u32) -> Option<(usize, int)> {
    match e {
        ZEBRASymbolicExpr::Mul(x, y) => match (*x, *y) {
            (ZEBRASymbolicExpr::Variable(v), ZEBRASymbolicExpr::Constant(k)) => Some((v.index, (k.lo as int) % (p as int))),
            (ZEBRASymbolicExpr::Constant(k), ZEBRASymbolicExpr::Variable(v)) => Some((v.index, (k.lo as int) % (p as int))),
            _ => None,
        },
        ZEBRASymbolicExpr::Variable(v) => Some((v.index, 1)),
        _ => None,
    }
}

/// `a - rhs` where `rhs`, with a leading subtraction moved out, is
/// `L - d * e`, `d` not zero in the field, and neither `a` nor `e` among the
/// columns of `L` (see `simple_cols_of`): `(a, L, e, d)`.
pub open spec fn abir_of(c: ZEBRASymbolicExpr, p: u32) -> Option<(usize, ZEBRASymbolicExpr, usize, int)> {
    match c {
        ZEBRASymbolicExpr::Sub(lhs, rhs) => match *lhs {
            ZEBRASymbolicExpr::Variable(a) => match spec_move_sub_expr_to_right(*rhs) {
                ZEBRASymbolicExpr::Sub(l, de) => match scaled_var(*de, p) {
                    Some((e, d)) => if d != 0 && !simple_cols_of(*l).contains(a.index) && !simple_cols_of(*l).contains(e) {
                        Some((a.index, *l, e, d))
                    } else {
                        None
                    },
                    None => None,
                },
                _ => None,
            },
            _ => None,
        },
        _ => None,
    }
}

pub open spec fn abir_view(a: AbirConstraint) -> (usize, ZEBRASymbolicExpr, usize, int) {
    (a.lhs_var, *a.affine_rhs, a.quotient_var, a.stride as int)
}

pub open spec fn abir_of_fn(p: u32) -> spec_fn(ZEBRASymbolicExpr) -> Option<(usize, ZEBRASymbolicExpr, usize, int)> {
    |c: ZEBRASymbolicExpr| abir_of(c, p)
}

fn match_scaled_var(e: &ZEBRASymbolicExpr, prime: u32) -> (r: Option<(usize, u32)>)
    requires
        prime > 0,
    ensures
        match (r, scaled_var(*e, prime)) {
            (Some((i, d)), Some((j, k))) => i == j && d == k,
            (None, None) => true,
            _ => false,
        },
{
    match e {
        ZEBRASymbolicExpr::Mul(x, y) => match (&**x, &**y) {
            (ZEBRASymbolicExpr::Variable(v), ZEBRASymbolicExpr::Constant(k)) => Some((v.index, k.as_canonical_u32(prime))),
            (ZEBRASymbolicExpr::Constant(k), ZEBRASymbolicExpr::Variable(v)) => Some((v.index, k.as_canonical_u32(prime))),
            _ => None,
        },
        ZEBRASymbolicExpr::Variable(v) => Some((v.index, 1)),
        _ => None,
    }
}

fn match_abir(c: &ZEBRASymbolicExpr, prime: u32) -> (r: Option<AbirConstraint>)
    requires
        prime > 0,
    ensures
        match (r, abir_of(*c, prime)) {
            (Some(x), Some(y)) => abir_view(x) == y,
            (None, None) => true,
            _ => false,
        },
{
    if let ZEBRASymbolicExpr::Sub(lhs, rhs) = c {
        if let ZEBRASymbolicExpr::Variable(a) = &**lhs {
            let normalized = move_sub_expr_to_right(rhs);
            if let ZEBRASymbolicExpr::Sub(affine_rhs, de_term) = normalized {
                if let Some((quotient_var, stride)) = match_scaled_var(&de_term, prime) {
                    if stride != 0 {
                        let mut free_vars: HashSet<usize> = HashSet::new();
                        gather_vars_simple(&affine_rhs, &mut free_vars);
                        proof {
                            assert(free_vars@ =~= simple_cols_of(*affine_rhs));
                        }
                        if !free_vars.contains(&a.index) && !free_vars.contains(&quotient_var) {
                            return Some(AbirConstraint { lhs_var: a.index, affine_rhs, quotient_var, stride });
                        }
                    }
                }
            }
        }
    }
    None
}

/// The constraints `a = L - d * e` among the constraints, in order (see
/// `abir_of`).
pub fn detect_abir_constraints(constraints: &[ZEBRASymbolicExpr], prime: u32) -> (r: Vec<AbirConstraint>)
    requires
        prime > 0,
    ensures
        r@.map_values(|a: AbirConstraint| abir_view(a)) == collect_some(constraints@, abir_of_fn(prime)),
{
    let mut out: Vec<AbirConstraint> = Vec::new();
    let mut i: usize = 0;
    proof {
        assert(constraints@.take(0) =~= Seq::<ZEBRASymbolicExpr>::empty());
        assert(out@.map_values(|a: AbirConstraint| abir_view(a)) =~= Seq::<(usize, ZEBRASymbolicExpr, usize, int)>::empty());
    }
    while i < constraints.len()
        invariant
            prime > 0,
            i <= constraints@.len(),
            out@.map_values(|a: AbirConstraint| abir_view(a)) == collect_some(constraints@.take(i as int), abir_of_fn(prime)),
        decreases constraints.len() - i,
    {
        proof {
            assert(constraints@.take(i as int + 1).drop_last() =~= constraints@.take(i as int));
        }
        let ghost before = out@;
        if let Some(a) = match_abir(&constraints[i], prime) {
            out.push(a);
            proof {
                assert(out@.map_values(|a: AbirConstraint| abir_view(a)) =~= before.map_values(|a: AbirConstraint| abir_view(a)).push(abir_view(out@.last())));
            }
        }
        i += 1;
    }
    proof {
        assert(constraints@.take(constraints@.len() as int) =~= constraints@);
    }
    out
}

/// The table, a contradiction, and the log of narrowed cells (before, after).
pub type AbirState = (Seq<Seq<AbstractInterval>>, bool, Seq<(AbstractInterval, AbstractInterval)>);

/// One refinement of `e` on row `s`: `e` is narrowed to
/// `floor((L - a) / d)` with `L` evaluated on the row (no public values),
/// and the change is logged; a contradiction when they do not meet.
pub open spec fn abir_step(st: AbirState, s: int, c: AbirConstraint, p: u32) -> AbirState {
    let rows = st.0;
    let rhs = c.affine_rhs.value_of(row_env(rows, s, None, p));
    let inferred = rhs.spec_sub(rows[s][c.lhs_var as int]).spec_div_floor(c.stride as int);
    match rows[s][c.quotient_var as int].spec_intersect(inferred) {
        Some(x) => (rows.update(s, rows[s].update(c.quotient_var as int, x)), false, st.2.push((rows[s][c.quotient_var as int], x))),
        None => (rows, true, st.2),
    }
}

/// The refinement can be computed on row `s`.
pub open spec fn abir_step_ok(rows: Seq<Seq<AbstractInterval>>, s: int, c: AbirConstraint, p: u32) -> bool {
    let rhs = c.affine_rhs.value_of(row_env(rows, s, None, p));
    &&& c.affine_rhs.evaluable(row_env(rows, s, None, p))
    &&& rhs.sub_ok(rows[s][c.lhs_var as int])
    &&& c.stride > 0
}

/// Constraint `c` applied to the first `n` rows in order; nothing changes
/// after a contradiction.
pub open spec fn abir_rows(st: AbirState, c: AbirConstraint, n: int, p: u32) -> AbirState
    decreases n,
{
    if n <= 0 {
        st
    } else {
        let prev = abir_rows(st, c, n - 1, p);
        if prev.1 {
            prev
        } else {
            abir_step(prev, n - 1, c, p)
        }
    }
}

pub open spec fn abir_rows_ok(st: AbirState, c: AbirConstraint, n: int, p: u32) -> bool
    decreases n,
{
    if n <= 0 {
        true
    } else {
        let prev = abir_rows(st, c, n - 1, p);
        abir_rows_ok(st, c, n - 1, p) && (prev.1 || abir_step_ok(prev.0, n - 1, c, p))
    }
}

/// The first `k` constraints, each over all rows.
pub open spec fn abir_all(st: AbirState, cs: Seq<AbirConstraint>, k: int, p: u32) -> AbirState
    decreases k,
{
    if k <= 0 {
        st
    } else {
        abir_rows(abir_all(st, cs, k - 1, p), cs[k - 1], st.0.len() as int, p)
    }
}

pub open spec fn abir_all_ok(st: AbirState, cs: Seq<AbirConstraint>, k: int, p: u32) -> bool
    decreases k,
{
    if k <= 0 {
        true
    } else {
        abir_all_ok(st, cs, k - 1, p) && abir_rows_ok(abir_all(st, cs, k - 1, p), cs[k - 1], st.0.len() as int, p)
    }
}

proof fn lemma_abir_rows_stays(st: AbirState, c: AbirConstraint, j: int, n: int, p: u32)
    requires
        0 <= j <= n,
        abir_rows(st, c, j, p).1,
    ensures
        abir_rows(st, c, n, p) == abir_rows(st, c, j, p),
    decreases n - j,
{
    if n > j {
        lemma_abir_rows_stays(st, c, j, n - 1, p);
    }
}

proof fn lemma_abir_rows_failed(st: AbirState, c: AbirConstraint, n: int, p: u32)
    requires
        0 <= n,
        st.1,
    ensures
        abir_rows(st, c, n, p) == st,
    decreases n,
{
    if n > 0 {
        lemma_abir_rows_failed(st, c, n - 1, p);
    }
}

proof fn lemma_abir_all_stays(st: AbirState, cs: Seq<AbirConstraint>, j: int, k: int, p: u32)
    requires
        0 <= j <= k,
        abir_all(st, cs, j, p).1,
    ensures
        abir_all(st, cs, k, p) == abir_all(st, cs, j, p),
    decreases k - j,
{
    if k > j {
        lemma_abir_all_stays(st, cs, j, k - 1, p);
        lemma_abir_rows_failed(abir_all(st, cs, k - 1, p), cs[k - 1], st.0.len() as int, p);
    }
}

proof fn lemma_abir_rows_ok_prefix(st: AbirState, c: AbirConstraint, j: int, n: int, p: u32)
    requires
        0 <= j <= n,
        abir_rows_ok(st, c, n, p),
    ensures
        abir_rows_ok(st, c, j, p),
    decreases n - j,
{
    if n > j {
        lemma_abir_rows_ok_prefix(st, c, j, n - 1, p);
    }
}

proof fn lemma_abir_all_ok_prefix(st: AbirState, cs: Seq<AbirConstraint>, j: int, k: int, p: u32)
    requires
        0 <= j <= k,
        abir_all_ok(st, cs, k, p),
    ensures
        abir_all_ok(st, cs, j, p),
    decreases k - j,
{
    if k > j {
        lemma_abir_all_ok_prefix(st, cs, j, k - 1, p);
    }
}

pub open spec fn idx_abir(c: AbirConstraint) -> Seq<usize> {
    seq![c.lhs_var, c.quotient_var]
}

fn exec_abir_step(trace: &mut AbstractTrace, s: usize, c: &AbirConstraint, prime: u32, logs: &mut Vec<(AbstractInterval, AbstractInterval)>) -> (failed: bool)
    requires
        prime > 0,
        s < old(trace).data@.len(),
        all_fit(old(trace).rows(), idx_abir(*c)),
        abir_step_ok(old(trace).rows(), s as int, *c, prime),
    ensures
        (final(trace).rows(), failed, final(logs)@) == abir_step((old(trace).rows(), false, old(logs)@), s as int, *c, prime),
        same_shape(final(trace).rows(), old(trace).rows()),
        final(trace).data@.len() == old(trace).data@.len(),
        final(trace).singleton_positions@ == old(trace).singleton_positions@,
{
    let ghost rows = trace.rows();
    let num_steps = trace.data.len();
    let next: Option<&[AbstractInterval]> = if s + 1 < num_steps {
        Some(trace.data[s + 1].as_slice())
    } else {
        None
    };
    proof {
        assert(idx_abir(*c)[0] == c.lhs_var && idx_abir(*c)[1] == c.quotient_var);
        assert(rows[s as int] == trace.data@[s as int]@);
        if s + 1 < num_steps {
            assert(rows[s as int + 1] == trace.data@[s as int + 1]@);
        }
        assert(make_env(trace.data@[s as int]@, next, None, s == 0, s + 1 < num_steps, s + 1 == num_steps, prime)
            == row_env(rows, s as int, None, prime));
        assert(c.lhs_var < rows[s as int].len() && c.quotient_var < rows[s as int].len());
    }
    let rhs_interval = c.affine_rhs.eval(trace.data[s].as_slice(), next, None, s == 0, s + 1 < num_steps, s + 1 == num_steps, prime);
    let inferred_e = rhs_interval.minus(trace.data[s][c.lhs_var]).div_floor(c.stride as i128);
    let cur = trace.data[s][c.quotient_var];
    match cur.intersect(&inferred_e) {
        Some(refined) => {
            logs.push((cur, refined));
            proof {
                lemma_narrow_shape(rows, s as int, c.quotient_var as int, inferred_e);
            }
            trace.set_cell(s, c.quotient_var, refined);
            false
        },
        None => true,
    }
}

/// Applies each constraint `a = L - d * e` to every row in turn, narrowing
/// `e` to `floor((L - a) / d)` (see `abir_step`); returns `False` at the
/// first contradiction, `MayBe` otherwise, and the log of the narrowed cells.
pub fn apply_abir_refinement(trace: &mut AbstractTrace, constraints: &[AbirConstraint], prime: u32) -> (r: (MayBeFlag, Vec<(AbstractInterval, AbstractInterval)>))
    requires
        prime > 0,
        forall|k: int| 0 <= k < constraints@.len() ==> #[trigger] all_fit(old(trace).rows(), idx_abir(constraints@[k])),
        abir_all_ok((old(trace).rows(), false, Seq::empty()), constraints@, constraints@.len() as int, prime),
    ensures
        ({
            let res = abir_all((old(trace).rows(), false, Seq::empty()), constraints@, constraints@.len() as int, prime);
            &&& final(trace).rows() == res.0
            &&& r.1@ == res.2
            &&& r.0 == if res.1 {
                MayBeFlag::False
            } else {
                MayBeFlag::MayBe
            }
        }),
        final(trace).singleton_positions@ == old(trace).singleton_positions@,
{
    let mut logs: Vec<(AbstractInterval, AbstractInterval)> = Vec::new();
    let ghost st0: AbirState = (trace.rows(), false, Seq::empty());
    let ghost cs = constraints@;
    let n = trace.data.len();
    let m = constraints.len();
    let mut k: usize = 0;
    while k < m
        invariant
            prime > 0,
            n == trace.data@.len(),
            n == old(trace).data@.len(),
            m == cs.len(),
            cs == constraints@,
            st0 == (old(trace).rows(), false, Seq::<(AbstractInterval, AbstractInterval)>::empty()),
            st0.0.len() == n,
            same_shape(trace.rows(), st0.0),
            forall|k2: int| 0 <= k2 < cs.len() ==> #[trigger] all_fit(st0.0, idx_abir(cs[k2])),
            abir_all_ok(st0, cs, m as int, prime),
            trace.singleton_positions@ == old(trace).singleton_positions@,
            k <= m,
            abir_all(st0, cs, k as int, prime) == (trace.rows(), false, logs@),
        decreases m - k,
    {
        let ghost st_k = abir_all(st0, cs, k as int, prime);
        let c = &constraints[k];
        proof {
            lemma_abir_all_ok_prefix(st0, cs, k as int + 1, m as int, prime);
        }
        let mut s: usize = 0;
        while s < n
            invariant
                prime > 0,
                n == trace.data@.len(),
                n == old(trace).data@.len(),
                m == cs.len(),
                cs == constraints@,
                k < m,
                *c == cs[k as int],
                st0 == (old(trace).rows(), false, Seq::<(AbstractInterval, AbstractInterval)>::empty()),
                st0.0.len() == n,
                same_shape(trace.rows(), st0.0),
                forall|k2: int| 0 <= k2 < cs.len() ==> #[trigger] all_fit(st0.0, idx_abir(cs[k2])),
                abir_all_ok(st0, cs, m as int, prime),
                abir_rows_ok(st_k, *c, n as int, prime),
                trace.singleton_positions@ == old(trace).singleton_positions@,
                s <= n,
                st_k == abir_all(st0, cs, k as int, prime),
                abir_rows(st_k, *c, s as int, prime) == (trace.rows(), false, logs@),
            decreases n - s,
        {
            let ghost before = trace.rows();
            proof {
                assert(all_fit(st0.0, idx_abir(cs[k as int])));
                lemma_fit_shape(before, st0.0, idx_abir(*c));
                lemma_abir_rows_ok_prefix(st_k, *c, s as int + 1, n as int, prime);
            }
            let failed = exec_abir_step(trace, s, c, prime, &mut logs);
            if failed {
                proof {
                    lemma_abir_rows_stays(st_k, *c, s as int + 1, n as int, prime);
                    assert(abir_all(st0, cs, k as int + 1, prime) == abir_rows(st_k, *c, n as int, prime));
                    lemma_abir_all_stays(st0, cs, k as int + 1, m as int, prime);
                }
                return (MayBeFlag::False, logs);
            }
            s += 1;
        }
        k += 1;
    }
    (MayBeFlag::MayBe, logs)
}


// ----------------------------------------------------------------------
// words written as sums of scaled limb variables
// ----------------------------------------------------------------------

/// The column of `x`, `x * 1`, `1 * x`, `0 + e` or `e + 0` for such an `e`.
pub open spec fn unit_var(e: ZEBRASymbolicExpr) -> Option<usize>
    decreases e,
{
    match e {
        ZEBRASymbolicExpr::Variable(v) => Some(v.index),
        ZEBRASymbolicExpr::Mul(l, r) => match (*l, *r) {
            (ZEBRASymbolicExpr::Variable(v), ZEBRASymbolicExpr::Constant(k)) => if k.lo == k.hi && k.lo == 1 {
                Some(v.index)
            } else {
                None
            },
            (ZEBRASymbolicExpr::Constant(k), ZEBRASymbolicExpr::Variable(v)) => if k.lo == k.hi && k.lo == 1 {
                Some(v.index)
            } else {
                None
            },
            _ => None,
        },
        ZEBRASymbolicExpr::Add(l, r) => {
            let lz = match *l {
                ZEBRASymbolicExpr::Constant(k) => k.lo == k.hi && k.lo == 0,
                _ => false,
            };
            let rz = match *r {
                ZEBRASymbolicExpr::Constant(k) => k.lo == k.hi && k.lo == 0,
                _ => false,
            };
            if lz {
                unit_var(*r)
            } else if rz {
                unit_var(*l)
            } else {
                None
            }
        },
        _ => None,
    }
}

fn try_unwrap_unit_var(expr: &ZEBRASymbolicExpr) -> (r: Option<usize>)
    ensures
        r == unit_var(*expr),
    decreases *expr,
{
    match expr {
        ZEBRASymbolicExpr::Variable(v) => Some(v.index),
        ZEBRASymbolicExpr::Mul(lhs, rhs) => match (&**lhs, &**rhs) {
            (ZEBRASymbolicExpr::Variable(v), ZEBRASymbolicExpr::Constant(k)) => if k.is_singleton() && k.lo == 1 {
                Some(v.index)
            } else {
                None
            },
            (ZEBRASymbolicExpr::Constant(k), ZEBRASymbolicExpr::Variable(v)) => if k.is_singleton() && k.lo == 1 {
                Some(v.index)
            } else {
                None
            },
            _ => None,
        },
        ZEBRASymbolicExpr::Add(lhs, rhs) => {
            if let ZEBRASymbolicExpr::Constant(k) = &**lhs {
                if k.is_singleton() && k.lo == 0 {
                    return try_unwrap_unit_var(rhs);
                }
            }
            if let ZEBRASymbolicExpr::Constant(k) = &**rhs {
                if k.is_singleton() && k.lo == 0 {
                    return try_unwrap_unit_var(lhs);
                }
            }
            None
        },
        _ => None,
    }
}

/// The scaled variables `(column, scale)` of a sum of terms `x * k` or
/// `k * x` (`x` as in `unit_var`, `k` a constant read by its lower end),
/// left to right, and whether every other leaf is the constant 0.
pub open spec fn scaled_vars(e: ZEBRASymbolicExpr) -> (Seq<(usize, i128)>, bool)
    decreases e,
{
    match e {
        ZEBRASymbolicExpr::Add(l, r) => {
            let a = scaled_vars(*l);
            let b = scaled_vars(*r);
            (a.0 + b.0, a.1 && b.1)
        },
        ZEBRASymbolicExpr::Mul(l, r) => match (*r, unit_var(*l)) {
            (ZEBRASymbolicExpr::Constant(k), Some(i)) => (seq![(i, k.lo)], true),
            _ => match (*l, unit_var(*r)) {
                (ZEBRASymbolicExpr::Constant(k), Some(i)) => (seq![(i, k.lo)], true),
                _ => (Seq::empty(), false),
            },
        },
        ZEBRASymbolicExpr::Constant(k) => (Seq::empty(), k.lo == k.hi && k.lo == 0),
        _ => (Seq::empty(), false),
    }
}

fn collect_scaled_vars_from_word(expr: &ZEBRASymbolicExpr, result: &mut Vec<(usize, i128)>, clean: &mut bool)
    ensures
        final(result)@ == old(result)@ + scaled_vars(*expr).0,
        *final(clean) == (*old(clean) && scaled_vars(*expr).1),
    decreases *expr,
{
    match expr {
        ZEBRASymbolicExpr::Add(lhs, rhs) => {
            collect_scaled_vars_from_word(lhs, result, clean);
            collect_scaled_vars_from_word(rhs, result, clean);
            proof {
                assert(result@ =~= old(result)@ + scaled_vars(*expr).0);
            }
        },
        ZEBRASymbolicExpr::Mul(lhs, rhs) => {
            if let ZEBRASymbolicExpr::Constant(k) = &**rhs {
                if let Some(var_idx) = try_unwrap_unit_var(lhs) {
                    result.push((var_idx, k.lo));
                    proof {
                        assert(result@ =~= old(result)@ + scaled_vars(*expr).0);
                    }
                    return;
                }
            }
            if let ZEBRASymbolicExpr::Constant(k) = &**lhs {
                if let Some(var_idx) = try_unwrap_unit_var(rhs) {
                    result.push((var_idx, k.lo));
                    proof {
                        assert(result@ =~= old(result)@ + scaled_vars(*expr).0);
                    }
                    return;
                }
            }
            *clean = false;
            proof {
                assert(result@ =~= old(result)@ + scaled_vars(*expr).0);
            }
        },
        ZEBRASymbolicExpr::Constant(k) => {
            if !(k.is_singleton() && k.lo == 0) {
                *clean = false;
            }
            proof {
                assert(result@ =~= old(result)@ + scaled_vars(*expr).0);
            }
        },
        _ => {
            *clean = false;
            proof {
                assert(result@ =~= old(result)@ + scaled_vars(*expr).0);
            }
        },
    }
}

/// The scales of the four byte limbs of a word, least significant first.
pub open spec fn limb_scale(i: int) -> i128 {
    if i == 0 {
        1
    } else if i == 1 {
        256
    } else if i == 2 {
        65536
    } else {
        16777216
    }
}

/// The number of entries with scale `k`.
pub open spec fn count_scale(s: Seq<(usize, i128)>, k: i128) -> nat
    decreases s.len(),
{
    if s.len() == 0 {
        0
    } else {
        count_scale(s.drop_last(), k) + if s.last().1 == k {
            1nat
        } else {
            0nat
        }
    }
}

/// The column of the last entry with scale `k`.
pub open spec fn var_with_scale(s: Seq<(usize, i128)>, k: i128) -> usize
    decreases s.len(),
{
    if s.len() == 0 {
        0
    } else if s.last().1 == k {
        s.last().0
    } else {
        var_with_scale(s.drop_last(), k)
    }
}

/// The limb columns of a word written as `x0 * 1 + x1 * 256 + x2 * 65536 +
/// x3 * 16777216` in any order of the terms (zero constants allowed): four
/// scaled variables whose scales are exactly the four limb scales.
pub open spec fn word_var_indices(e: ZEBRASymbolicExpr) -> Option<Seq<usize>> {
    let (s, clean) = scaled_vars(e);
    if clean && s.len() == 4 && (forall|i: int| 0 <= i < 4 ==> count_scale(s, #[trigger] limb_scale(i)) == 1) {
        Some(Seq::new(4, |i: int| var_with_scale(s, limb_scale(i))))
    } else {
        None
    }
}

fn find_scale(s: &Vec<(usize, i128)>, k: i128) -> (r: (usize, usize))
    ensures
        r.0 == count_scale(s@, k) || (r.0 == 2 && count_scale(s@, k) >= 2),
        count_scale(s@, k) == 1 ==> r.1 == var_with_scale(s@, k),
{
    let mut count: usize = 0;
    let mut last: usize = 0;
    let mut i: usize = 0;
    proof {
        assert(s@.take(0) =~= Seq::<(usize, i128)>::empty());
    }
    while i < s.len()
        invariant
            i <= s@.len(),
            count as int == (if count_scale(s@.take(i as int), k) >= 2 {
                2
            } else {
                count_scale(s@.take(i as int), k) as int
            }),
            count_scale(s@.take(i as int), k) >= 1 ==> last == var_with_scale(s@.take(i as int), k),
        decreases s.len() - i,
    {
        proof {
            assert(s@.take(i as int + 1).drop_last() =~= s@.take(i as int));
            assert(s@.take(i as int + 1).last() == s@[i as int]);
        }
        if s[i].1 == k {
            if count < 2 {
                count = count + 1;
            }
            last = s[i].0;
        }
        i += 1;
    }
    proof {
        assert(s@.take(s@.len() as int) =~= s@);
    }
    (count, last)
}

/// The limb columns of a word written as a sum of scaled limb variables
/// (see `word_var_indices`).
fn extract_word_var_indices(expr: &ZEBRASymbolicExpr) -> (r: Option<[usize; 4]>)
    ensures
        match (r, word_var_indices(*expr)) {
            (Some(a), Some(s)) => a@ == s,
            (None, None) => true,
            _ => false,
        },
{
    let mut scaled: Vec<(usize, i128)> = Vec::new();
    let mut clean = true;
    collect_scaled_vars_from_word(expr, &mut scaled, &mut clean);
    proof {
        assert(scaled@ =~= scaled_vars(*expr).0);
    }
    if !clean || scaled.len() != 4 {
        return None;
    }
    let (c0, v0) = find_scale(&scaled, 1);
    let (c1, v1) = find_scale(&scaled, 256);
    let (c2, v2) = find_scale(&scaled, 65536);
    let (c3, v3) = find_scale(&scaled, 16777216);
    if c0 == 1 && c1 == 1 && c2 == 1 && c3 == 1 {
        let a = [v0, v1, v2, v3];
        proof {
            assert(limb_scale(0) == 1 && limb_scale(1) == 256 && limb_scale(2) == 65536 && limb_scale(3) == 16777216);
            assert(a@ =~= Seq::new(4, |i: int| var_with_scale(scaled@, limb_scale(i))));
        }
        Some(a)
    } else {
        proof {
            assert(limb_scale(0) == 1 && limb_scale(1) == 256 && limb_scale(2) == 65536 && limb_scale(3) == 16777216);
            if c0 != 1 {
                assert(count_scale(scaled@, limb_scale(0)) != 1);
            } else if c1 != 1 {
                assert(count_scale(scaled@, limb_scale(1)) != 1);
            } else if c2 != 1 {
                assert(count_scale(scaled@, limb_scale(2)) != 1);
            } else {
                assert(count_scale(scaled@, limb_scale(3)) != 1);
            }
        }
        None
    }
}

/// The byte `i` of a 32-bit value.
pub open spec fn byte_of(t: u32, i: u32) -> i128 {
    ((t >> (8 * i)) & 0xff) as i128
}

/// The four limb cells narrowed in turn to the bytes of `t`, least
/// significant first; a contradiction stops at the first limb that does not
/// meet its byte.
pub open spec fn narrow_bytes(rows: Seq<Seq<AbstractInterval>>, r: int, a: Seq<usize>, t: u32, k: int) -> PassState
    decreases k,
{
    if k <= 0 {
        (rows, false)
    } else {
        let prev = narrow_bytes(rows, r, a, t, k - 1);
        if prev.1 {
            prev
        } else {
            narrow(prev.0, r, a[k - 1] as int, single(byte_of(t, (k - 1) as u32)))
        }
    }
}

/// Every limb cell holds byte values only.
pub open spec fn limbs_are_bytes(row: Seq<AbstractInterval>, a: Seq<usize>) -> bool {
    forall|i: int| 0 <= i < 4 ==> row[#[trigger] a[i] as int].lo >= 0 && row[a[i] as int].hi <= 255
}

fn all_bytes(row: &Vec<AbstractInterval>, a: &[usize; 4]) -> (r: bool)
    requires
        forall|i: int| 0 <= i < 4 ==> #[trigger] a@[i] < row@.len(),
    ensures
        r == limbs_are_bytes(row@, a@),
{
    let mut i: usize = 0;
    while i < 4
        invariant
            forall|j: int| 0 <= j < 4 ==> #[trigger] a@[j] < row@.len(),
            i <= 4,
            forall|j: int| 0 <= j < i ==> row@[#[trigger] a@[j] as int].lo >= 0 && row@[a@[j] as int].hi <= 255,
        decreases 4 - i,
    {
        let x = row[a[i]];
        if !(x.lo >= 0 && x.hi <= 255) {
            return false;
        }
        i += 1;
    }
    true
}

fn exec_narrow_bytes(trace: &mut AbstractTrace, r: usize, a: &[usize; 4], t: u32) -> (failed: bool)
    requires
        r < old(trace).data@.len(),
        forall|i: int| 0 <= i < 4 ==> #[trigger] a@[i] < old(trace).data@[r as int]@.len(),
    ensures
        (final(trace).rows(), failed) == narrow_bytes(old(trace).rows(), r as int, a@, t, 4),
        same_shape(final(trace).rows(), old(trace).rows()),
        final(trace).data@.len() == old(trace).data@.len(),
        final(trace).singleton_positions@ == old(trace).singleton_positions@,
{
    let ghost rows0 = trace.rows();
    let mut i: u32 = 0;
    while i < 4
        invariant
            r < trace.data@.len(),
            trace.data@.len() == old(trace).data@.len(),
            rows0 == old(trace).rows(),
            forall|j: int| 0 <= j < 4 ==> #[trigger] a@[j] < old(trace).data@[r as int]@.len(),
            same_shape(trace.rows(), rows0),
            trace.singleton_positions@ == old(trace).singleton_positions@,
            i <= 4,
            narrow_bytes(rows0, r as int, a@, t, i as int) == (trace.rows(), false),
        decreases 4 - i,
    {
        let byte_val = ((t >> (8 * i)) & 0xFF) as i128;
        let a_idx = a[i as usize];
        let ghost before = trace.rows();
        proof {
            assert(rows0[r as int] == old(trace).data@[r as int]@);
            assert(before[r as int].len() == rows0[r as int].len());
            assert(before[r as int] == trace.data@[r as int]@);
            lemma_narrow_shape(before, r as int, a_idx as int, single(byte_val));
        }
        let failed = narrow_cell(trace, r, a_idx, AbstractInterval::from_i128(byte_val));
        if failed {
            proof {
                lemma_narrow_bytes_stays(rows0, r as int, a@, t, i as int + 1, 4);
            }
            return true;
        }
        i += 1;
    }
    false
}

proof fn lemma_narrow_bytes_stays(rows: Seq<Seq<AbstractInterval>>, r: int, a: Seq<usize>, t: u32, j: int, k: int)
    requires
        0 <= j <= k,
        narrow_bytes(rows, r, a, t, j).1,
    ensures
        narrow_bytes(rows, r, a, t, k) == narrow_bytes(rows, r, a, t, j),
    decreases k - j,
{
    if k > j {
        lemma_narrow_bytes_stays(rows, r, a, t, j, k - 1);
    }
}

// ----------------------------------------------------------------------
// selector * (a_word - WordAddU(b, c))
// ----------------------------------------------------------------------

/// `selector * (a_word - WordAddU(b, c))`, the limbs of `a_word` columns
/// that the selector does not read.
#[derive(Clone, Debug)]
pub struct SelectorAddUConstraint {
    pub selector_expr: Box<ZEBRASymbolicExpr>,
    pub a_var_indices: [usize; 4],
    pub b_limb_exprs: ExprWord,
    pub c_limb_exprs: ExprWord,
}

pub open spec fn addu_view(c: SelectorAddUConstraint) -> (ZEBRASymbolicExpr, Seq<usize>, ExprWord, ExprWord) {
    (*c.selector_expr, c.a_var_indices@, c.b_limb_exprs, c.c_limb_exprs)
}

/// The match of `body` against `a_word - WordAddU(b, c)` under `sel`.
pub open spec fn addu_side(sel: ZEBRASymbolicExpr, body: ZEBRASymbolicExpr) -> Option<(ZEBRASymbolicExpr, Seq<usize>, ExprWord, ExprWord)> {
    match body {
        ZEBRASymbolicExpr::Sub(aw, op) => match *op {
            ZEBRASymbolicExpr::WordAddU(b, c) => match word_var_indices(*aw) {
                Some(a) => if (forall|i: int| 0 <= i < 4 ==> !simple_cols_of(sel).contains(#[trigger] a[i])) {
                    Some((sel, a, b, c))
                } else {
                    None
                },
                None => None,
            },
            _ => None,
        },
        _ => None,
    }
}

/// A product with a gated word sum on either side, the left tried first.
pub open spec fn addu_of(c: ZEBRASymbolicExpr) -> Option<(ZEBRASymbolicExpr, Seq<usize>, ExprWord, ExprWord)> {
    match c {
        ZEBRASymbolicExpr::Mul(l, r) => match addu_side(*l, *r) {
            Some(x) => Some(x),
            None => addu_side(*r, *l),
        },
        _ => None,
    }
}

pub open spec fn addu_of_fn() -> spec_fn(ZEBRASymbolicExpr) -> Option<(ZEBRASymbolicExpr, Seq<usize>, ExprWord, ExprWord)> {
    |c: ZEBRASymbolicExpr| addu_of(c)
}

fn none_in(a: &[usize; 4], s: &HashSet<usize>) -> (r: bool)
    ensures
        r == (forall|i: int| 0 <= i < 4 ==> !s@.contains(#[trigger] a@[i])),
{
    let mut i: usize = 0;
    while i < 4
        invariant
            i <= 4,
            forall|j: int| 0 <= j < i ==> !s@.contains(#[trigger] a@[j]),
        decreases 4 - i,
    {
        if s.contains(&a[i]) {
            return false;
        }
        i += 1;
    }
    true
}

fn match_addu_side(sel: &ZEBRASymbolicExpr, body: &ZEBRASymbolicExpr) -> (r: Option<SelectorAddUConstraint>)
    ensures
        match (r, addu_side(*sel, *body)) {
            (Some(x), Some(y)) => addu_view(x) == y,
            (None, None) => true,
            _ => false,
        },
{
    if let ZEBRASymbolicExpr::Sub(a_word_expr, word_op_expr) = body {
        if let ZEBRASymbolicExpr::WordAddU(b_arr, c_arr) = &**word_op_expr {
            if let Some(a_var_indices) = extract_word_var_indices(a_word_expr) {
                let mut sel_vars: HashSet<usize> = HashSet::new();
                gather_vars_simple(sel, &mut sel_vars);
                proof {
                    assert(sel_vars@ =~= simple_cols_of(*sel));
                }
                if none_in(&a_var_indices, &sel_vars) {
                    return Some(
                        SelectorAddUConstraint {
                            selector_expr: Box::new(sel.deep_copy()),
                            a_var_indices,
                            b_limb_exprs: b_arr.deep_copy(),
                            c_limb_exprs: c_arr.deep_copy(),
                        },
                    );
                }
            }
        }
    }
    None
}

/// The gated word sums among the constraints, in order (see `addu_of`).
pub fn detect_selector_addu_constraints(constraints: &[ZEBRASymbolicExpr]) -> (r: Vec<SelectorAddUConstraint>)
    ensures
        r@.map_values(|a: SelectorAddUConstraint| addu_view(a)) == collect_some(constraints@, addu_of_fn()),
{
    let mut out: Vec<SelectorAddUConstraint> = Vec::new();
    let mut i: usize = 0;
    proof {
        assert(constraints@.take(0) =~= Seq::<ZEBRASymbolicExpr>::empty());
        assert(out@.map_values(|a: SelectorAddUConstraint| addu_view(a)) =~= Seq::<(ZEBRASymbolicExpr, Seq<usize>, ExprWord, ExprWord)>::empty());
    }
    while i < constraints.len()
        invariant
            i <= constraints@.len(),
            out@.map_values(|a: SelectorAddUConstraint| addu_view(a)) == collect_some(constraints@.take(i as int), addu_of_fn()),
        decreases constraints.len() - i,
    {
        proof {
            assert(constraints@.take(i as int + 1).drop_last() =~= constraints@.take(i as int));
        }
        let ghost before = out@;
        if let ZEBRASymbolicExpr::Mul(outer_lhs, outer_rhs) = &constraints[i] {
            let found = match match_addu_side(outer_lhs, outer_rhs) {
                Some(x) => Some(x),
                None => match_addu_side(outer_rhs, outer_lhs),
            };
            if let Some(x) = found {
                out.push(x);
                proof {
                    assert(out@.map_values(|a: SelectorAddUConstraint| addu_view(a)) =~= before.map_values(|a: SelectorAddUConstraint| addu_view(a)).push(addu_view(out@.last())));
                }
            }
        }
        i += 1;
    }
    proof {
        assert(constraints@.take(constraints@.len() as int) =~= constraints@);
    }
    out
}

pub open spec fn idx_addu(c: SelectorAddUConstraint) -> Seq<usize> {
    c.a_var_indices@
}

/// The four limbs hold single values.
pub open spec fn word_singles(w: Word) -> bool {
    forall|i: int| 0 <= i < 4 ==> (#[trigger] w[i]).lo == w[i].hi
}

/// One gated word sum on row `r` (no public values): when the selector is
/// the single value 1, the limbs of `b` and `c` are single values, every
/// limb cell of `a` holds bytes only and the 32-bit sum is a single value,
/// the limb cells are narrowed to its bytes.
#[verifier::opaque]
pub open spec fn step_addu(rows: Seq<Seq<AbstractInterval>>, r: int, c: SelectorAddUConstraint, p: u32) -> PassState {
    let env = row_env(rows, r, None, p);
    let sel = c.selector_expr.value_of(env);
    let b = ZEBRASymbolicExpr::word_value(c.b_limb_exprs, env);
    let cw = ZEBRASymbolicExpr::word_value(c.c_limb_exprs, env);
    let res = spec_word_addu(b, cw);
    if sel.lo == sel.hi && sel.lo == 1 && word_singles(b) && word_singles(cw) && limbs_are_bytes(rows[r], c.a_var_indices@) && res.lo == res.hi {
        narrow_bytes(rows, r, c.a_var_indices@, res.lo as u32, 4)
    } else {
        (rows, false)
    }
}

pub open spec fn step_addu_fn(p: u32) -> spec_fn(Seq<Seq<AbstractInterval>>, int, SelectorAddUConstraint) -> PassState {
    |rows: Seq<Seq<AbstractInterval>>, r: int, c: SelectorAddUConstraint| step_addu(rows, r, c, p)
}

/// The evaluations of a gated word sum step can be computed.
#[verifier::opaque]
pub open spec fn ok_addu(rows: Seq<Seq<AbstractInterval>>, r: int, c: SelectorAddUConstraint, p: u32) -> bool {
    let env = row_env(rows, r, None, p);
    let sel = c.selector_expr.value_of(env);
    let b = ZEBRASymbolicExpr::word_value(c.b_limb_exprs, env);
    let cw = ZEBRASymbolicExpr::word_value(c.c_limb_exprs, env);
    &&& c.selector_expr.evaluable(env)
    &&& sel.lo == sel.hi && sel.lo == 1 ==> {
        &&& ZEBRASymbolicExpr::word_evaluable(c.b_limb_exprs, env)
        &&& ZEBRASymbolicExpr::word_evaluable(c.c_limb_exprs, env)
        &&& word_singles(b) && word_singles(cw) && limbs_are_bytes(rows[r], c.a_var_indices@) ==> word_ok(b) && word_ok(cw)
    }
}

pub open spec fn ok_addu_fn(p: u32) -> spec_fn(Seq<Seq<AbstractInterval>>, int, SelectorAddUConstraint) -> bool {
    |rows: Seq<Seq<AbstractInterval>>, r: int, c: SelectorAddUConstraint| ok_addu(rows, r, c, p)
}

fn singles4(w: &Word) -> (r: bool)
    ensures
        r == word_singles(*w),
{
    let r = w[0].is_singleton() && w[1].is_singleton() && w[2].is_singleton() && w[3].is_singleton();
    proof {
        if r {
            assert forall|i: int| 0 <= i < 4 implies (#[trigger] w[i]).lo == w[i].hi by {
                if i == 0 {} else if i == 1 {} else if i == 2 {} else {}
            }
        }
    }
    r
}

/// The environment of row `r` without public values, for the evaluations of
/// a refinement.
fn row_parts(trace: &AbstractTrace, r: usize) -> (next: Option<&[AbstractInterval]>)
    requires
        r < trace.data@.len(),
    ensures
        make_env(trace.data@[r as int]@, next, None, r == 0, r + 1 < trace.data@.len(), r + 1 == trace.data@.len(), 0)
            == row_env(trace.rows(), r as int, None, 0),
{
    let ghost rows = trace.rows();
    let num_rows = trace.data.len();
    let next: Option<&[AbstractInterval]> = if r + 1 < num_rows {
        Some(trace.data[r + 1].as_slice())
    } else {
        None
    };
    proof {
        assert(rows[r as int] == trace.data@[r as int]@);
        if r + 1 < num_rows {
            assert(rows[r as int + 1] == trace.data@[r as int + 1]@);
        }
        assert(make_env(trace.data@[r as int]@, next, None, r == 0, r + 1 < num_rows, r + 1 == num_rows, 0)
            == row_env(rows, r as int, None, 0));
    }
    next
}

proof fn lemma_env_prime(trace: &AbstractTrace, r: int, next: Option<&[AbstractInterval]>, p: u32)
    requires
        0 <= r < trace.data@.len(),
        make_env(trace.data@[r]@, next, None, r == 0, r + 1 < trace.data@.len(), r + 1 == trace.data@.len(), 0)
            == row_env(trace.rows(), r, None, 0),
    ensures
        make_env(trace.data@[r]@, next, None, r == 0, r + 1 < trace.data@.len(), r + 1 == trace.data@.len(), p)
            == row_env(trace.rows(), r, None, p),
{
}

fn exec_addu(trace: &mut AbstractTrace, r: usize, c: &SelectorAddUConstraint, prime: u32) -> (failed: bool)
    requires
        prime > 0,
        r < old(trace).data@.len(),
        all_fit(old(trace).rows(), idx_addu(*c)),
        ok_addu(old(trace).rows(), r as int, *c, prime),
    ensures
        (final(trace).rows(), failed) == step_addu(old(trace).rows(), r as int, *c, prime),
        same_shape(final(trace).rows(), old(trace).rows()),
        final(trace).data@.len() == old(trace).data@.len(),
        final(trace).singleton_positions@ == old(trace).singleton_positions@,
{
    reveal(step_addu);
    reveal(ok_addu);
    let ghost rows = trace.rows();
    let num_rows = trace.data.len();
    let next = row_parts(trace, r);
    proof {
        lemma_env_prime(trace, r as int, next, prime);
        assert(rows[r as int] == trace.data@[r as int]@);
        assert forall|i: int| 0 <= i < 4 implies #[trigger] c.a_var_indices@[i] < trace.data@[r as int]@.len() by {
            assert(idx_addu(*c)[i] == c.a_var_indices@[i]);
        }
    }
    let row = trace.data[r].as_slice();
    let sel_val = c.selector_expr.eval(row, next, None, r == 0, r + 1 < num_rows, r + 1 == num_rows, prime);
    if !sel_val.is_singleton() || sel_val.lo != 1 {
        return false;
    }
    let b0 = c.b_limb_exprs.l0.eval(row, next, None, r == 0, r + 1 < num_rows, r + 1 == num_rows, prime);
    let b1 = c.b_limb_exprs.l1.eval(row, next, None, r == 0, r + 1 < num_rows, r + 1 == num_rows, prime);
    let b2 = c.b_limb_exprs.l2.eval(row, next, None, r == 0, r + 1 < num_rows, r + 1 == num_rows, prime);
    let b3 = c.b_limb_exprs.l3.eval(row, next, None, r == 0, r + 1 < num_rows, r + 1 == num_rows, prime);
    let c0 = c.c_limb_exprs.l0.eval(row, next, None, r == 0, r + 1 < num_rows, r + 1 == num_rows, prime);
    let c1 = c.c_limb_exprs.l1.eval(row, next, None, r == 0, r + 1 < num_rows, r + 1 == num_rows, prime);
    let c2 = c.c_limb_exprs.l2.eval(row, next, None, r == 0, r + 1 < num_rows, r + 1 == num_rows, prime);
    let c3 = c.c_limb_exprs.l3.eval(row, next, None, r == 0, r + 1 < num_rows, r + 1 == num_rows, prime);
    let b_word: Word = [b0, b1, b2, b3];
    let c_word: Word = [c0, c1, c2, c3];
    if !singles4(&b_word) || !singles4(&c_word) {
        return false;
    }
    if !all_bytes(&trace.data[r], &c.a_var_indices) {
        return false;
    }
    let result = word_addu(&b_word, &c_word);
    if !result.is_singleton() {
        return false;
    }
    let target_u32 = result.lo as u32;
    exec_narrow_bytes(trace, r, &c.a_var_indices, target_u32)
}

// ----------------------------------------------------------------------
// selector * (a_word - rhs)
// ----------------------------------------------------------------------

/// `selector * (a_word - rhs)`: when the selector is non-zero, the word of
/// limb columns `a` equals `rhs`; neither the selector nor `rhs` reads them.
#[derive(Clone, Debug)]
pub struct SelectorWordAssignConstraint {
    pub selector_expr: Box<ZEBRASymbolicExpr>,
    pub a_var_indices: [usize; 4],
    pub rhs_expr: Box<ZEBRASymbolicExpr>,
}

pub open spec fn assign_view(c: SelectorWordAssignConstraint) -> (ZEBRASymbolicExpr, Seq<usize>, ZEBRASymbolicExpr) {
    (*c.selector_expr, c.a_var_indices@, *c.rhs_expr)
}

/// The factors of a product tree, left to right.
pub open spec fn mul_factors(e: ZEBRASymbolicExpr) -> Seq<ZEBRASymbolicExpr>
    decreases e,
{
    match e {
        ZEBRASymbolicExpr::Mul(l, r) => mul_factors(*l) + mul_factors(*r),
        _ => seq![e],
    }
}

fn collect_mul_factors(expr: &ZEBRASymbolicExpr, factors: &mut Vec<ZEBRASymbolicExpr>)
    ensures
        final(factors)@ == old(factors)@ + mul_factors(*expr),
    decreases *expr,
{
    if let ZEBRASymbolicExpr::Mul(lhs, rhs) = expr {
        collect_mul_factors(lhs, factors);
        collect_mul_factors(rhs, factors);
        proof {
            assert(factors@ =~= old(factors)@ + mul_factors(*expr));
        }
    } else {
        factors.push(expr.deep_copy());
        proof {
            assert(factors@ =~= old(factors)@ + mul_factors(*expr));
        }
    }
}

/// The product of the factors, multiplied from the left.
pub open spec fn product_of(fs: Seq<ZEBRASymbolicExpr>) -> ZEBRASymbolicExpr
    decreases fs.len(),
{
    if fs.len() <= 1 {
        fs[0]
    } else {
        ZEBRASymbolicExpr::Mul(Box::new(product_of(fs.drop_last())), Box::new(fs.last()))
    }
}

/// With the difference `a - rhs` at factor `k`: the product of the other
/// factors, the limb columns of `a`, and `rhs`, when `a` is a limb word whose
/// columns neither the product nor `rhs` reads.
pub open spec fn assign_side(fs: Seq<ZEBRASymbolicExpr>, k: int, a: ZEBRASymbolicExpr, rhs: ZEBRASymbolicExpr) -> Option<(ZEBRASymbolicExpr, Seq<usize>, ZEBRASymbolicExpr)> {
    match word_var_indices(a) {
        Some(idx) => {
            let sel = product_of(fs.remove(k));
            if (forall|i: int| 0 <= i < 4 ==> !simple_cols_of(sel).contains(#[trigger] idx[i]) && !simple_cols_of(rhs).contains(idx[i])) {
                Some((sel, idx, rhs))
            } else {
                None
            }
        },
        None => None,
    }
}

/// The first factor from `k` on that is a difference with a limb word on
/// one side (the left tried first), as in `assign_side`.
pub open spec fn assign_search(fs: Seq<ZEBRASymbolicExpr>, k: int) -> Option<(ZEBRASymbolicExpr, Seq<usize>, ZEBRASymbolicExpr)>
    decreases fs.len() - k,
{
    if k >= fs.len() || k < 0 {
        None
    } else {
        match fs[k] {
            ZEBRASymbolicExpr::Sub(l, r) => match assign_side(fs, k, *l, *r) {
                Some(x) => Some(x),
                None => match assign_side(fs, k, *r, *l) {
                    Some(x) => Some(x),
                    None => assign_search(fs, k + 1),
                },
            },
            _ => assign_search(fs, k + 1),
        }
    }
}

/// A product of at least two factors one of which assigns a limb word.
pub open spec fn assign_of(c: ZEBRASymbolicExpr) -> Option<(ZEBRASymbolicExpr, Seq<usize>, ZEBRASymbolicExpr)> {
    let fs = mul_factors(c);
    if fs.len() < 2 {
        None
    } else {
        assign_search(fs, 0)
    }
}

pub open spec fn assign_of_fn() -> spec_fn(ZEBRASymbolicExpr) -> Option<(ZEBRASymbolicExpr, Seq<usize>, ZEBRASymbolicExpr)> {
    |c: ZEBRASymbolicExpr| assign_of(c)
}

/// The product of the factors other than factor `k`, multiplied from the left.
fn product_without(fs: &Vec<ZEBRASymbolicExpr>, k: usize) -> (r: ZEBRASymbolicExpr)
    requires
        fs@.len() >= 2,
        k < fs@.len(),
    ensures
        r == product_of(fs@.remove(k as int)),
{
    let ghost rest = fs@.remove(k as int);
    let first: usize = if k == 0 {
        1
    } else {
        0
    };
    let mut acc = fs[first].deep_copy();
    let mut i: usize = first + 1;
    proof {
        assert(rest[0] == fs@[first as int]);
    }
    while i < fs.len()
        invariant
            fs@.len() >= 2,
            k < fs@.len(),
            rest == fs@.remove(k as int),
            first == (if k == 0 {
                1usize
            } else {
                0usize
            }),
            first < i <= fs@.len(),
            acc == product_of(rest.take(if i > k {
                i - 1
            } else {
                i as int
            })),
        decreases fs.len() - i,
    {
        if i != k {
            let ghost j: int = if i > k {
                i - 1
            } else {
                i as int
            };
            proof {
                assert(rest[j] == fs@[i as int]);
                assert(rest.take(j + 1).drop_last() =~= rest.take(j));
                assert(rest.take(j + 1).last() == rest[j]);
            }
            acc = ZEBRASymbolicExpr::Mul(Box::new(acc), Box::new(fs[i].deep_copy()));
        }
        i += 1;
    }
    proof {
        assert(rest.take(fs@.len() - 1) =~= rest);
    }
    acc
}

fn match_assign_side(fs: &Vec<ZEBRASymbolicExpr>, k: usize, a: &ZEBRASymbolicExpr, rhs: &ZEBRASymbolicExpr) -> (r: Option<SelectorWordAssignConstraint>)
    requires
        fs@.len() >= 2,
        k < fs@.len(),
    ensures
        match (r, assign_side(fs@, k as int, *a, *rhs)) {
            (Some(x), Some(y)) => assign_view(x) == y,
            (None, None) => true,
            _ => false,
        },
{
    if let Some(a_var_indices) = extract_word_var_indices(a) {
        let sel_expr = product_without(fs, k);
        let mut sel_vars: HashSet<usize> = HashSet::new();
        gather_vars_simple(&sel_expr, &mut sel_vars);
        let mut rhs_vars: HashSet<usize> = HashSet::new();
        gather_vars_simple(rhs, &mut rhs_vars);
        proof {
            assert(sel_vars@ =~= simple_cols_of(sel_expr));
            assert(rhs_vars@ =~= simple_cols_of(*rhs));
        }
        if none_in(&a_var_indices, &sel_vars) && none_in(&a_var_indices, &rhs_vars) {
            return Some(
                SelectorWordAssignConstraint {
                    selector_expr: Box::new(sel_expr),
                    a_var_indices,
                    rhs_expr: Box::new(rhs.deep_copy()),
                },
            );
        }
    }
    None
}

fn match_assign(c: &ZEBRASymbolicExpr) -> (r: Option<SelectorWordAssignConstraint>)
    ensures
        match (r, assign_of(*c)) {
            (Some(x), Some(y)) => assign_view(x) == y,
            (None, None) => true,
            _ => false,
        },
{
    let mut factors: Vec<ZEBRASymbolicExpr> = Vec::new();
    collect_mul_factors(c, &mut factors);
    proof {
        assert(factors@ =~= mul_factors(*c));
    }
    if factors.len() < 2 {
        return None;
    }
    let mut k: usize = 0;
    while k < factors.len()
        invariant
            factors@ == mul_factors(*c),
            factors@.len() >= 2,
            k <= factors@.len(),
            assign_search(factors@, 0) == assign_search(factors@, k as int),
        decreases factors.len() - k,
    {
        if let ZEBRASymbolicExpr::Sub(sub_lhs, sub_rhs) = &factors[k] {
            if let Some(x) = match_assign_side(&factors, k, sub_lhs, sub_rhs) {
                return Some(x);
            }
            if let Some(x) = match_assign_side(&factors, k, sub_rhs, sub_lhs) {
                return Some(x);
            }
        }
        k += 1;
    }
    None
}

/// The gated word assignments among the constraints, in order (see
/// `assign_of`).
pub fn detect_selector_word_assign_constraints(constraints: &[ZEBRASymbolicExpr]) -> (r: Vec<SelectorWordAssignConstraint>)
    ensures
        r@.map_values(|a: SelectorWordAssignConstraint| assign_view(a)) == collect_some(constraints@, assign_of_fn()),
{
    let mut out: Vec<SelectorWordAssignConstraint> = Vec::new();
    let mut i: usize = 0;
    proof {
        assert(constraints@.take(0) =~= Seq::<ZEBRASymbolicExpr>::empty());
        assert(out@.map_values(|a: SelectorWordAssignConstraint| assign_view(a)) =~= Seq::<(ZEBRASymbolicExpr, Seq<usize>, ZEBRASymbolicExpr)>::empty());
    }
    while i < constraints.len()
        invariant
            i <= constraints@.len(),
            out@.map_values(|a: SelectorWordAssignConstraint| assign_view(a)) == collect_some(constraints@.take(i as int), assign_of_fn()),
        decreases constraints.len() - i,
    {
        proof {
            assert(constraints@.take(i as int + 1).drop_last() =~= constraints@.take(i as int));
        }
        let ghost before = out@;
        if let Some(x) = match_assign(&constraints[i]) {
            out.push(x);
            proof {
                assert(out@.map_values(|a: SelectorWordAssignConstraint| assign_view(a)) =~= before.map_values(|a: SelectorWordAssignConstraint| assign_view(a)).push(assign_view(out@.last())));
            }
        }
        i += 1;
    }
    proof {
        assert(constraints@.take(constraints@.len() as int) =~= constraints@);
    }
    out
}

pub open spec fn idx_assign(c: SelectorWordAssignConstraint) -> Seq<usize> {
    c.a_var_indices@
}

/// One gated word assignment on row `r` (no public values): when the
/// selector is a single non-zero value, `rhs` a single value and every limb
/// cell holds bytes only, the limb cells are narrowed to the bytes of the
/// low 32 bits of `rhs`.
#[verifier::opaque]
pub open spec fn step_assign(rows: Seq<Seq<AbstractInterval>>, r: int, c: SelectorWordAssignConstraint, p: u32) -> PassState {
    let env = row_env(rows, r, None, p);
    let sel = c.selector_expr.value_of(env);
    let rhs = c.rhs_expr.value_of(env);
    if sel.lo == sel.hi && sel.lo != 0 && rhs.lo == rhs.hi && limbs_are_bytes(rows[r], c.a_var_indices@) {
        narrow_bytes(rows, r, c.a_var_indices@, rhs.lo as u32, 4)
    } else {
        (rows, false)
    }
}

pub open spec fn step_assign_fn(p: u32) -> spec_fn(Seq<Seq<AbstractInterval>>, int, SelectorWordAssignConstraint) -> PassState {
    |rows: Seq<Seq<AbstractInterval>>, r: int, c: SelectorWordAssignConstraint| step_assign(rows, r, c, p)
}

/// The evaluations of a gated word assignment step can be computed.
#[verifier::opaque]
pub open spec fn ok_assign(rows: Seq<Seq<AbstractInterval>>, r: int, c: SelectorWordAssignConstraint, p: u32) -> bool {
    let env = row_env(rows, r, None, p);
    let sel = c.selector_expr.value_of(env);
    &&& c.selector_expr.evaluable(env)
    &&& sel.lo == sel.hi && sel.lo != 0 ==> c.rhs_expr.evaluable(env)
}

pub open spec fn ok_assign_fn(p: u32) -> spec_fn(Seq<Seq<AbstractInterval>>, int, SelectorWordAssignConstraint) -> bool {
    |rows: Seq<Seq<AbstractInterval>>, r: int, c: SelectorWordAssignConstraint| ok_assign(rows, r, c, p)
}

fn exec_assign(trace: &mut AbstractTrace, r: usize, c: &SelectorWordAssignConstraint, prime: u32) -> (failed: bool)
    requires
        prime > 0,
        r < old(trace).data@.len(),
        all_fit(old(trace).rows(), idx_assign(*c)),
        ok_assign(old(trace).rows(), r as int, *c, prime),
    ensures
        (final(trace).rows(), failed) == step_assign(old(trace).rows(), r as int, *c, prime),
        same_shape(final(trace).rows(), old(trace).rows()),
        final(trace).data@.len() == old(trace).data@.len(),
        final(trace).singleton_positions@ == old(trace).singleton_positions@,
{
    reveal(step_assign);
    reveal(ok_assign);
    let ghost rows = trace.rows();
    let num_rows = trace.data.len();
    let next = row_parts(trace, r);
    proof {
        lemma_env_prime(trace, r as int, next, prime);
        assert(rows[r as int] == trace.data@[r as int]@);
        assert forall|i: int| 0 <= i < 4 implies #[trigger] c.a_var_indices@[i] < trace.data@[r as int]@.len() by {
            assert(idx_assign(*c)[i] == c.a_var_indices@[i]);
        }
    }
    let row = trace.data[r].as_slice();
    let sel_val = c.selector_expr.eval(row, next, None, r == 0, r + 1 < num_rows, r + 1 == num_rows, prime);
    if !sel_val.is_singleton() || sel_val.lo == 0 {
        return false;
    }
    let rhs_val = c.rhs_expr.eval(row, next, None, r == 0, r + 1 < num_rows, r + 1 == num_rows, prime);
    if !rhs_val.is_singleton() {
        return false;
    }
    if !all_bytes(&trace.data[r], &c.a_var_indices) {
        return false;
    }
    let target_u32 = rhs_val.lo as u32;
    exec_narrow_bytes(trace, r, &c.a_var_indices, target_u32)
}

/// Applies the gated word sums row by row (see `step_addu`): `False` at
/// the first contradiction, `MayBe` otherwise.
pub fn refine_selector_addu_constraints(trace: &mut AbstractTrace, constraints: &[SelectorAddUConstraint], prime: u32) -> (r: MayBeFlag)
    requires
        forall|k: int| 0 <= k < constraints@.len() ==> #[trigger] all_fit(old(trace).rows(), idx_addu(constraints@[k])),
        rows_pass_ok((old(trace).rows(), false), old(trace).data@.len() as int, constraints@, step_addu_fn(prime), ok_addu_fn(prime)),
        prime > 0,
    ensures
        ({
            let res = rows_pass((old(trace).rows(), false), old(trace).data@.len() as int, constraints@, step_addu_fn(prime));
            &&& final(trace).rows() == res.0
            &&& r == if res.1 {
                MayBeFlag::False
            } else {
                MayBeFlag::MayBe
            }
        }),
        final(trace).singleton_positions@ == old(trace).singleton_positions@,
{
    let ghost st0: PassState = (trace.rows(), false);
    let ghost cs = constraints@;
    let n = trace.data.len();
    let m = constraints.len();
    let mut r: usize = 0;
    while r < n
        invariant
            prime > 0,
            n == trace.data@.len(),
            n == old(trace).data@.len(),
            m == cs.len(),
            cs == constraints@,
            st0 == (old(trace).rows(), false),
            same_shape(trace.rows(), st0.0),
            forall|k: int| 0 <= k < cs.len() ==> #[trigger] all_fit(st0.0, idx_addu(cs[k])),
            rows_pass_ok(st0, n as int, cs, step_addu_fn(prime), ok_addu_fn(prime)),
            trace.singleton_positions@ == old(trace).singleton_positions@,
            r <= n,
            rows_pass(st0, r as int, cs, step_addu_fn(prime)) == (trace.rows(), false),
        decreases n - r,
    {
        let ghost st_r = rows_pass(st0, r as int, cs, step_addu_fn(prime));
        let mut k: usize = 0;
        while k < m
            invariant
                prime > 0,
                n == trace.data@.len(),
                n == old(trace).data@.len(),
                st0 == (old(trace).rows(), false),
                m == cs.len(),
                cs == constraints@,
                r < n,
                same_shape(trace.rows(), st0.0),
                forall|k2: int| 0 <= k2 < cs.len() ==> #[trigger] all_fit(st0.0, idx_addu(cs[k2])),
                rows_pass_ok(st0, n as int, cs, step_addu_fn(prime), ok_addu_fn(prime)),
                trace.singleton_positions@ == old(trace).singleton_positions@,
                k <= m,
                st_r == rows_pass(st0, r as int, cs, step_addu_fn(prime)),
                row_pass(st_r, r as int, cs, k as int, step_addu_fn(prime)) == (trace.rows(), false),
            decreases m - k,
        {
            let c = &constraints[k];
            let ghost before = trace.rows();
            proof {
                assert(all_fit(st0.0, idx_addu(cs[k as int])));
                lemma_fit_shape(before, st0.0, idx_addu(cs[k as int]));
                lemma_rows_pass_ok_prefix(st0, r as int + 1, n as int, cs, step_addu_fn(prime), ok_addu_fn(prime));
                lemma_row_pass_ok_prefix(st_r, r as int, cs, k as int + 1, m as int, step_addu_fn(prime), ok_addu_fn(prime));
                assert(ok_addu_fn(prime)(before, r as int, cs[k as int]) == ok_addu(before, r as int, cs[k as int], prime));
            }
            let failed = exec_addu(trace, r, c, prime);
            proof {
                assert(step_addu_fn(prime)(before, r as int, cs[k as int]) == step_addu(before, r as int, cs[k as int], prime));
                assert(row_pass(st_r, r as int, cs, k as int + 1, step_addu_fn(prime)) == (trace.rows(), failed));
            }
            if failed {
                proof {
                    lemma_row_pass_stays(st_r, r as int, cs, k as int + 1, m as int, step_addu_fn(prime));
                    assert(rows_pass(st0, r as int + 1, cs, step_addu_fn(prime)) == row_pass(st_r, r as int, cs, m as int, step_addu_fn(prime)));
                    lemma_rows_pass_stays(st0, r as int + 1, n as int, cs, step_addu_fn(prime));
                }
                return MayBeFlag::False;
            }
            k += 1;
        }
        r += 1;
    }
    MayBeFlag::MayBe
}

/// Applies the gated word assignments row by row (see `step_assign`):
/// `False` at the first contradiction, `MayBe` otherwise.
pub fn refine_selector_word_assign_constraints(trace: &mut AbstractTrace, constraints: &[SelectorWordAssignConstraint], prime: u32) -> (r: MayBeFlag)
    requires
        forall|k: int| 0 <= k < constraints@.len() ==> #[trigger] all_fit(old(trace).rows(), idx_assign(constraints@[k])),
        rows_pass_ok((old(trace).rows(), false), old(trace).data@.len() as int, constraints@, step_assign_fn(prime), ok_assign_fn(prime)),
        prime > 0,
    ensures
        ({
            let res = rows_pass((old(trace).rows(), false), old(trace).data@.len() as int, constraints@, step_assign_fn(prime));
            &&& final(trace).rows() == res.0
            &&& r == if res.1 {
                MayBeFlag::False
            } else {
                MayBeFlag::MayBe
            }
        }),
        final(trace).singleton_positions@ == old(trace).singleton_positions@,
{
    let ghost st0: PassState = (trace.rows(), false);
    let ghost cs = constraints@;
    let n = trace.data.len();
    let m = constraints.len();
    let mut r: usize = 0;
    while r < n
        invariant
            prime > 0,
            n == trace.data@.len(),
            n == old(trace).data@.len(),
            m == cs.len(),
            cs == constraints@,
            st0 == (old(trace).rows(), false),
            same_shape(trace.rows(), st0.0),
            forall|k: int| 0 <= k < cs.len() ==> #[trigger] all_fit(st0.0, idx_assign(cs[k])),
            rows_pass_ok(st0, n as int, cs, step_assign_fn(prime), ok_assign_fn(prime)),
            trace.singleton_positions@ == old(trace).singleton_positions@,
            r <= n,
            rows_pass(st0, r as int, cs, step_assign_fn(prime)) == (trace.rows(), false),
        decreases n - r,
    {
        let ghost st_r = rows_pass(st0, r as int, cs, step_assign_fn(prime));
        let mut k: usize = 0;
        while k < m
            invariant
                prime > 0,
                n == trace.data@.len(),
                n == old(trace).data@.len(),
                st0 == (old(trace).rows(), false),
                m == cs.len(),
                cs == constraints@,
                r < n,
                same_shape(trace.rows(), st0.0),
                forall|k2: int| 0 <= k2 < cs.len() ==> #[trigger] all_fit(st0.0, idx_assign(cs[k2])),
                rows_pass_ok(st0, n as int, cs, step_assign_fn(prime), ok_assign_fn(prime)),
                trace.singleton_positions@ == old(trace).singleton_positions@,
                k <= m,
                st_r == rows_pass(st0, r as int, cs, step_assign_fn(prime)),
                row_pass(st_r, r as int, cs, k as int, step_assign_fn(prime)) == (trace.rows(), false),
            decreases m - k,
        {
            let c = &constraints[k];
            let ghost before = trace.rows();
            proof {
                assert(all_fit(st0.0, idx_assign(cs[k as int])));
                lemma_fit_shape(before, st0.0, idx_assign(cs[k as int]));
                lemma_rows_pass_ok_prefix(st0, r as int + 1, n as int, cs, step_assign_fn(prime), ok_assign_fn(prime));
                lemma_row_pass_ok_prefix(st_r, r as int, cs, k as int + 1, m as int, step_assign_fn(prime), ok_assign_fn(prime));
                assert(ok_assign_fn(prime)(before, r as int, cs[k as int]) == ok_assign(before, r as int, cs[k as int], prime));
            }
            let failed = exec_assign(trace, r, c, prime);
            proof {
                assert(step_assign_fn(prime)(before, r as int, cs[k as int]) == step_assign(before, r as int, cs[k as int], prime));
                assert(row_pass(st_r, r as int, cs, k as int + 1, step_assign_fn(prime)) == (trace.rows(), failed));
            }
            if failed {
                proof {
                    lemma_row_pass_stays(st_r, r as int, cs, k as int + 1, m as int, step_assign_fn(prime));
                    assert(rows_pass(st0, r as int + 1, cs, step_assign_fn(prime)) == row_pass(st_r, r as int, cs, m as int, step_assign_fn(prime)));
                    lemma_rows_pass_stays(st0, r as int + 1, n as int, cs, step_assign_fn(prime));
                }
                return MayBeFlag::False;
            }
            k += 1;
        }
        r += 1;
    }
    MayBeFlag::MayBe
}

// ----------------------------------------------------------------------
// the backward refinements of a search node, in order
// ----------------------------------------------------------------------

/// The patterns detected once per search and used to narrow each node.
pub struct SearchPatterns {
    pub var_sub_const: Vec<(usize, usize, i128)>,
    pub addvars_sub_const: Vec<(usize, Vec<usize>, i128)>,
    pub var_sub_var: Vec<(usize, usize, usize)>,
    pub abir: Vec<AbirConstraint>,
    pub selector_addu: Vec<SelectorAddUConstraint>,
    pub selector_word_assign: Vec<SelectorWordAssignConstraint>,
}

/// The pass of the `var - const` patterns over the rows.
pub open spec fn pass_vsc(rows: Seq<Seq<AbstractInterval>>, pt: SearchPatterns) -> PassState {
    rows_pass((rows, false), rows.len() as int, pt.var_sub_const@, step_var_sub_const_fn())
}

/// The pass of the `var - var` patterns over the rows.
pub open spec fn pass_vsv(rows: Seq<Seq<AbstractInterval>>, pt: SearchPatterns) -> PassState {
    rows_pass((rows, false), rows.len() as int, pt.var_sub_var@, step_var_sub_var_fn())
}

/// The pass of the ABIR patterns over the rows.
pub open spec fn pass_abir(rows: Seq<Seq<AbstractInterval>>, pt: SearchPatterns, p: u32) -> AbirState {
    abir_all((rows, false, Seq::empty()), pt.abir@, pt.abir@.len() as int, p)
}

/// The pass of the `sum - const` patterns over the rows.
pub open spec fn pass_avs(rows: Seq<Seq<AbstractInterval>>, pt: SearchPatterns) -> PassState {
    rows_pass((rows, false), rows.len() as int, pt.addvars_sub_const@, step_addvars_fn())
}

/// The pass of the selected word additions over the rows.
pub open spec fn pass_addu(rows: Seq<Seq<AbstractInterval>>, pt: SearchPatterns, p: u32) -> PassState {
    rows_pass((rows, false), rows.len() as int, pt.selector_addu@, step_addu_fn(p))
}

/// The pass of the selected word assignments over the rows.
pub open spec fn pass_assign(rows: Seq<Seq<AbstractInterval>>, pt: SearchPatterns, p: u32) -> PassState {
    rows_pass((rows, false), rows.len() as int, pt.selector_word_assign@, step_assign_fn(p))
}

/// The six passes in order (`var - const`, `var - var`, ABIR, `sum - const`,
/// selected word additions, selected word assignments), stopping at the first
/// that finds a contradiction: the rows then, and whether one was found.
pub open spec fn spec_backward_refine(rows: Seq<Seq<AbstractInterval>>, pt: SearchPatterns, p: u32) -> PassState {
    let r1 = pass_vsc(rows, pt);
    if r1.1 {
        r1
    } else {
        let r2 = pass_vsv(r1.0, pt);
        if r2.1 {
            r2
        } else {
            let r3 = pass_abir(r2.0, pt, p);
            if r3.1 {
                (r3.0, true)
            } else {
                let r4 = pass_avs(r3.0, pt);
                if r4.1 {
                    r4
                } else {
                    let r5 = pass_addu(r4.0, pt, p);
                    if r5.1 {
                        r5
                    } else {
                        pass_assign(r5.0, pt, p)
                    }
                }
            }
        }
    }
}

/// Each pass that `spec_backward_refine` makes reads only cells of the rows
/// it is given and keeps its arithmetic within range.
pub open spec fn backward_refine_ok(rows: Seq<Seq<AbstractInterval>>, pt: SearchPatterns, p: u32) -> bool {
    let r1 = pass_vsc(rows, pt);
    let r2 = pass_vsv(r1.0, pt);
    let r3 = pass_abir(r2.0, pt, p);
    let r4 = pass_avs(r3.0, pt);
    let r5 = pass_addu(r4.0, pt, p);
    &&& forall|k: int| 0 <= k < pt.var_sub_const@.len() ==> all_rows_have(rows, (#[trigger] pt.var_sub_const@[k]).0 as int)
        && all_rows_have(rows, pt.var_sub_const@[k].1 as int)
    &&& !r1.1 ==> forall|k: int| 0 <= k < pt.var_sub_var@.len() ==> #[trigger] all_fit(r1.0, idx_vsv(pt.var_sub_var@[k]))
    &&& !r1.1 && !r2.1 ==> {
        &&& forall|k: int| 0 <= k < pt.abir@.len() ==> #[trigger] all_fit(r2.0, idx_abir(pt.abir@[k]))
        &&& abir_all_ok((r2.0, false, Seq::empty()), pt.abir@, pt.abir@.len() as int, p)
    }
    &&& !r1.1 && !r2.1 && !r3.1 ==> {
        &&& forall|k: int| 0 <= k < pt.addvars_sub_const@.len() ==> #[trigger] all_fit(r3.0, idx_avs(pt.addvars_sub_const@[k]))
        &&& rows_pass_ok((r3.0, false), r3.0.len() as int, pt.addvars_sub_const@, step_addvars_fn(), ok_addvars_fn())
    }
    &&& !r1.1 && !r2.1 && !r3.1 && !r4.1 ==> {
        &&& forall|k: int| 0 <= k < pt.selector_addu@.len() ==> #[trigger] all_fit(r4.0, idx_addu(pt.selector_addu@[k]))
        &&& rows_pass_ok((r4.0, false), r4.0.len() as int, pt.selector_addu@, step_addu_fn(p), ok_addu_fn(p))
    }
    &&& !r1.1 && !r2.1 && !r3.1 && !r4.1 && !r5.1 ==> {
        &&& forall|k: int| 0 <= k < pt.selector_word_assign@.len() ==> #[trigger] all_fit(r5.0, idx_assign(pt.selector_word_assign@[k]))
        &&& rows_pass_ok((r5.0, false), r5.0.len() as int, pt.selector_word_assign@, step_assign_fn(p), ok_assign_fn(p))
    }
}

/// Runs the backward refinements of a search node in order and stops at the
/// first that finds a contradiction (`False`, the node is pruned); `MayBe`
/// when none does.
pub fn backward_refine(trace: &mut AbstractTrace, patterns: &SearchPatterns, prime: u32) -> (r: MayBeFlag)
    requires
        prime > 0,
        backward_refine_ok(old(trace).rows(), *patterns, prime),
    ensures
        ({
            let res = spec_backward_refine(old(trace).rows(), *patterns, prime);
            &&& final(trace).rows() == res.0
            &&& r == if res.1 {
                MayBeFlag::False
            } else {
                MayBeFlag::MayBe
            }
        }),
        final(trace).singleton_positions@ == old(trace).singleton_positions@,
{
    if refine_conditional_constraints_var_sub_const(trace, patterns.var_sub_const.as_slice()) == MayBeFlag::False {
        return MayBeFlag::False;
    }
    if refine_conditional_constraints_var_sub_var(trace, patterns.var_sub_var.as_slice()) == MayBeFlag::False {
        return MayBeFlag::False;
    }
    if apply_abir_refinement(trace, patterns.abir.as_slice(), prime).0 == MayBeFlag::False {
        return MayBeFlag::False;
    }
    if refine_conditional_constraints_addvars_sub_const(trace, patterns.addvars_sub_const.as_slice())
        == MayBeFlag::False {
        return MayBeFlag::False;
    }
    if refine_selector_addu_constraints(trace, patterns.selector_addu.as_slice(), prime) == MayBeFlag::False {
        return MayBeFlag::False;
    }
    refine_selector_word_assign_constraints(trace, patterns.selector_word_assign.as_slice(), prime)
}

} // verus!
