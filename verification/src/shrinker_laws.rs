use vstd::prelude::*;

use crate::interval::AbstractInterval;
use crate::analysis::simple_cols_of;
use crate::shrinker::{abir_of, abir_of_fn, collect_some, scaled_var};
use crate::symbolic::ZEBRASymbolicExpr;
use crate::shrinker::{
    fires, fires_pol, single, singles_in, step_addvars, step_double_sel_avs, step_double_sel_vsc, step_var_sub_const, step_var_sub_var,
    sum_cells,
};
use crate::shrinker::{
    abir_all, abir_rows, abir_step, all_fit, all_rows_have, idx_abir, idx_addu, idx_assign, idx_avs, idx_dsa,
    idx_dsv, idx_vsv, lemma_partition_lens, narrow, narrow_bytes, others_in, row_pass, rows_pass,
    same_shape, step_addu_fn, step_addvars_fn, step_assign_fn, step_double_sel_avs_fn,
    step_double_sel_vsc_fn, step_var_sub_const_fn, step_var_sub_var_fn, AbirConstraint,
    AbirState, PassState, SelectorAddUConstraint, SelectorWordAssignConstraint,
};

verus! {

/// Cell `a` holds no value outside cell `b`.
pub open spec fn cell_within(a: AbstractInterval, b: AbstractInterval) -> bool {
    b.lo <= a.lo && a.hi <= b.hi
}

/// Table `a` has the shape of `b`, and each of its cells lies within the
/// cell of `b` at the same place.
pub open spec fn within(a: Seq<Seq<AbstractInterval>>, b: Seq<Seq<AbstractInterval>>) -> bool {
    &&& same_shape(a, b)
    &&& forall|r: int, j: int|
        0 <= r < a.len() && 0 <= j < a[r].len() ==> cell_within(#[trigger] a[r][j], b[r][j])
}

proof fn lemma_within_refl(a: Seq<Seq<AbstractInterval>>)
    ensures
        within(a, a),
{
}

proof fn lemma_within_trans(a: Seq<Seq<AbstractInterval>>, b: Seq<Seq<AbstractInterval>>, c: Seq<Seq<AbstractInterval>>)
    requires
        within(a, b),
        within(b, c),
    ensures
        within(a, c),
{
    assert forall|r: int, j: int| 0 <= r < a.len() && 0 <= j < a[r].len() implies cell_within(
        #[trigger] a[r][j],
        c[r][j],
    ) by {
        assert(cell_within(b[r][j], c[r][j]));
    }
}

/// Narrowing a cell keeps the table within itself.
proof fn lemma_narrow_within(rows: Seq<Seq<AbstractInterval>>, r: int, j: int, t: AbstractInterval)
    requires
        0 <= r < rows.len(),
        0 <= j < rows[r].len(),
    ensures
        within(narrow(rows, r, j, t).0, rows),
{
    let x = narrow(rows, r, j, t).0;
    assert forall|q: int| 0 <= q < x.len() implies (#[trigger] x[q]).len() == rows[q].len() by {
    }
    assert forall|q: int, k: int| 0 <= q < x.len() && 0 <= k < x[q].len() implies cell_within(
        #[trigger] x[q][k],
        rows[q][k],
    ) by {
    }
}

proof fn lemma_narrow_bytes_within(rows: Seq<Seq<AbstractInterval>>, r: int, a: Seq<usize>, t: u32, k: int)
    requires
        0 <= r < rows.len(),
        0 <= k <= a.len(),
        forall|i: int| 0 <= i < a.len() ==> (#[trigger] a[i]) < rows[r].len(),
    ensures
        within(narrow_bytes(rows, r, a, t, k).0, rows),
    decreases k,
{
    if k <= 0 {
        lemma_within_refl(rows);
    } else {
        lemma_narrow_bytes_within(rows, r, a, t, k - 1);
        let prev = narrow_bytes(rows, r, a, t, k - 1);
        if !prev.1 {
            assert(a[k - 1] < rows[r].len());
            let t1 = crate::shrinker::single(crate::shrinker::byte_of(t, (k - 1) as u32));
            lemma_narrow_within(prev.0, r, a[k - 1] as int, t1);
            lemma_within_trans(narrow(prev.0, r, a[k - 1] as int, t1).0, prev.0, rows);
        }
    }
}

/// On each table within `base`, each step at row `r` keeps the table
/// within itself.
pub open spec fn steps_narrow<C>(
    base: Seq<Seq<AbstractInterval>>,
    r: int,
    cs: Seq<C>,
    step: spec_fn(Seq<Seq<AbstractInterval>>, int, C) -> PassState,
) -> bool {
    forall|rows: Seq<Seq<AbstractInterval>>, k: int|
        within(rows, base) && 0 <= k < cs.len() ==> within(#[trigger] step(rows, r, cs[k]).0, rows)
}

proof fn lemma_row_pass_within<C>(
    base: Seq<Seq<AbstractInterval>>,
    st: PassState,
    r: int,
    cs: Seq<C>,
    k: int,
    step: spec_fn(Seq<Seq<AbstractInterval>>, int, C) -> PassState,
)
    requires
        0 <= k <= cs.len(),
        within(st.0, base),
        steps_narrow(base, r, cs, step),
    ensures
        within(row_pass(st, r, cs, k, step).0, st.0),
    decreases k,
{
    if k <= 0 {
        lemma_within_refl(st.0);
    } else {
        lemma_row_pass_within(base, st, r, cs, k - 1, step);
        let prev = row_pass(st, r, cs, k - 1, step);
        if !prev.1 {
            lemma_within_trans(prev.0, st.0, base);
            let next = step(prev.0, r, cs[k - 1]);
            assert(within(next.0, prev.0));
            lemma_within_trans(next.0, prev.0, st.0);
        }
    }
}

proof fn lemma_rows_pass_within<C>(
    st: PassState,
    n: int,
    cs: Seq<C>,
    step: spec_fn(Seq<Seq<AbstractInterval>>, int, C) -> PassState,
)
    requires
        forall|r: int| 0 <= r < n ==> #[trigger] steps_narrow(st.0, r, cs, step),
    ensures
        within(rows_pass(st, n, cs, step).0, st.0),
    decreases n,
{
    if n <= 0 {
        lemma_within_refl(st.0);
    } else {
        lemma_rows_pass_within(st, n - 1, cs, step);
        let prev = rows_pass(st, n - 1, cs, step);
        assert(steps_narrow(st.0, n - 1, cs, step));
        lemma_row_pass_within(st.0, prev, n - 1, cs, cs.len() as int, step);
        lemma_within_trans(row_pass(prev, n - 1, cs, cs.len() as int, step).0, prev.0, st.0);
    }
}

/// The columns of `idxs` exist in every row of a table within `base`.
proof fn lemma_fit_within(rows: Seq<Seq<AbstractInterval>>, base: Seq<Seq<AbstractInterval>>, idxs: Seq<usize>, r: int)
    requires
        within(rows, base),
        all_fit(base, idxs),
        0 <= r < base.len(),
    ensures
        forall|i: int| 0 <= i < idxs.len() ==> (#[trigger] idxs[i]) < rows[r].len(),
{
    assert forall|i: int| 0 <= i < idxs.len() implies (#[trigger] idxs[i]) < rows[r].len() by {
        assert(idxs[i] < base[r].len());
    }
}

/// A pass of gated constant assignments
/// (`refine_conditional_constraints_var_sub_const`) never widens a cell:
/// each cell of the table it leaves lies within the cell it started from.
pub proof fn law_var_sub_const_narrows(rows: Seq<Seq<AbstractInterval>>, cs: Seq<(usize, usize, i128)>)
    requires
        forall|k: int| 0 <= k < cs.len() ==> all_rows_have(rows, (#[trigger] cs[k]).0 as int) && all_rows_have(rows, cs[k].1 as int),
    ensures
        within(rows_pass((rows, false), rows.len() as int, cs, step_var_sub_const_fn()).0, rows),
{
    let step = step_var_sub_const_fn();
    assert forall|r: int| 0 <= r < rows.len() implies #[trigger] steps_narrow(rows, r, cs, step) by {
        assert forall|t: Seq<Seq<AbstractInterval>>, k: int| within(t, rows) && 0 <= k < cs.len() implies within(
            #[trigger] step(t, r, cs[k]).0,
            t,
        ) by {
            assert(cs[k].1 < rows[r].len());
            lemma_narrow_within(t, r, cs[k].1 as int, crate::shrinker::single(cs[k].2));
            lemma_within_refl(t);
        }
    }
    lemma_rows_pass_within((rows, false), rows.len() as int, cs, step);
}

/// A pass of gated equalities (`refine_conditional_constraints_var_sub_var`)
/// never widens a cell.
pub proof fn law_var_sub_var_narrows(rows: Seq<Seq<AbstractInterval>>, cs: Seq<(usize, usize, usize)>)
    requires
        forall|k: int| 0 <= k < cs.len() ==> #[trigger] all_fit(rows, idx_vsv(cs[k])),
    ensures
        within(rows_pass((rows, false), rows.len() as int, cs, step_var_sub_var_fn()).0, rows),
{
    let step = step_var_sub_var_fn();
    assert forall|r: int| 0 <= r < rows.len() implies #[trigger] steps_narrow(rows, r, cs, step) by {
        assert forall|t: Seq<Seq<AbstractInterval>>, k: int| within(t, rows) && 0 <= k < cs.len() implies within(
            #[trigger] step(t, r, cs[k]).0,
            t,
        ) by {
            let c = cs[k];
            lemma_fit_within(t, rows, idx_vsv(c), r);
            assert(idx_vsv(c)[1] == c.1 && idx_vsv(c)[2] == c.2);
            lemma_within_refl(t);
            let x = step(t, r, c).0;
            assert forall|q: int| 0 <= q < x.len() implies (#[trigger] x[q]).len() == t[q].len() by {
            }
            assert forall|q: int, j: int| 0 <= q < x.len() && 0 <= j < x[q].len() implies cell_within(
                #[trigger] x[q][j],
                t[q][j],
            ) by {
            }
        }
    }
    lemma_rows_pass_within((rows, false), rows.len() as int, cs, step);
}

/// A pass of doubly gated constant assignments
/// (`refine_double_sel_var_sub_const`) never widens a cell.
pub proof fn law_double_sel_var_sub_const_narrows(
    rows: Seq<Seq<AbstractInterval>>,
    cs: Seq<(usize, bool, usize, bool, usize, i128)>,
)
    requires
        forall|k: int| 0 <= k < cs.len() ==> #[trigger] all_fit(rows, idx_dsv(cs[k])),
    ensures
        within(rows_pass((rows, false), rows.len() as int, cs, step_double_sel_vsc_fn()).0, rows),
{
    let step = step_double_sel_vsc_fn();
    assert forall|r: int| 0 <= r < rows.len() implies #[trigger] steps_narrow(rows, r, cs, step) by {
        assert forall|t: Seq<Seq<AbstractInterval>>, k: int| within(t, rows) && 0 <= k < cs.len() implies within(
            #[trigger] step(t, r, cs[k]).0,
            t,
        ) by {
            let c = cs[k];
            lemma_fit_within(t, rows, idx_dsv(c), r);
            assert(idx_dsv(c)[2] == c.4);
            lemma_narrow_within(t, r, c.4 as int, crate::shrinker::single(c.5));
            lemma_within_refl(t);
        }
    }
    lemma_rows_pass_within((rows, false), rows.len() as int, cs, step);
}

/// The cell a gated sum narrows is one of its summed cells.
proof fn lemma_other_fits(row: Seq<AbstractInterval>, vs: Seq<usize>)
    requires
        forall|i: int| 0 <= i < vs.len() ==> (#[trigger] vs[i]) < row.len(),
    ensures
        forall|i: int| 0 <= i < others_in(row, vs).len() ==> (#[trigger] others_in(row, vs)[i]) < row.len(),
{
    lemma_partition_lens(row, vs);
}

/// A pass of gated sums (`refine_conditional_constraints_addvars_sub_const`)
/// never widens a cell.
pub proof fn law_addvars_sub_const_narrows(rows: Seq<Seq<AbstractInterval>>, cs: Seq<(usize, Vec<usize>, i128)>)
    requires
        forall|k: int| 0 <= k < cs.len() ==> #[trigger] all_fit(rows, idx_avs(cs[k])),
    ensures
        within(rows_pass((rows, false), rows.len() as int, cs, step_addvars_fn()).0, rows),
{
    let step = step_addvars_fn();
    assert forall|r: int| 0 <= r < rows.len() implies #[trigger] steps_narrow(rows, r, cs, step) by {
        assert forall|t: Seq<Seq<AbstractInterval>>, k: int| within(t, rows) && 0 <= k < cs.len() implies within(
            #[trigger] step(t, r, cs[k]).0,
            t,
        ) by {
            let c = cs[k];
            lemma_fit_within(t, rows, idx_avs(c), r);
            assert forall|i: int| 0 <= i < c.1@.len() implies (#[trigger] c.1@[i]) < t[r].len() by {
                assert(idx_avs(c)[i + 1] == c.1@[i]);
            }
            lemma_other_fits(t[r], c.1@);
            lemma_within_refl(t);
            let ns = others_in(t[r], c.1@);
            if ns.len() >= 1 {
                assert(ns[0] < t[r].len());
                lemma_narrow_within(
                    t,
                    r,
                    ns[0] as int,
                    crate::shrinker::single(c.2).spec_sub(crate::shrinker::sum_cells(t[r], crate::shrinker::singles_in(t[r], c.1@))),
                );
            }
        }
    }
    lemma_rows_pass_within((rows, false), rows.len() as int, cs, step);
}

/// A pass of doubly gated sums (`refine_double_sel_addvars_sub_const`)
/// never widens a cell.
pub proof fn law_double_sel_addvars_sub_const_narrows(
    rows: Seq<Seq<AbstractInterval>>,
    cs: Seq<(usize, bool, usize, bool, Vec<usize>, i128)>,
)
    requires
        forall|k: int| 0 <= k < cs.len() ==> #[trigger] all_fit(rows, idx_dsa(cs[k])),
    ensures
        within(rows_pass((rows, false), rows.len() as int, cs, step_double_sel_avs_fn()).0, rows),
{
    let step = step_double_sel_avs_fn();
    assert forall|r: int| 0 <= r < rows.len() implies #[trigger] steps_narrow(rows, r, cs, step) by {
        assert forall|t: Seq<Seq<AbstractInterval>>, k: int| within(t, rows) && 0 <= k < cs.len() implies within(
            #[trigger] step(t, r, cs[k]).0,
            t,
        ) by {
            let c = cs[k];
            lemma_fit_within(t, rows, idx_dsa(c), r);
            assert forall|i: int| 0 <= i < c.4@.len() implies (#[trigger] c.4@[i]) < t[r].len() by {
                assert(idx_dsa(c)[i + 2] == c.4@[i]);
            }
            lemma_other_fits(t[r], c.4@);
            lemma_within_refl(t);
            let ns = others_in(t[r], c.4@);
            if ns.len() >= 1 {
                assert(ns[0] < t[r].len());
                lemma_narrow_within(
                    t,
                    r,
                    ns[0] as int,
                    crate::shrinker::single(c.5).spec_sub(crate::shrinker::sum_cells(t[r], crate::shrinker::singles_in(t[r], c.4@))),
                );
            }
        }
    }
    lemma_rows_pass_within((rows, false), rows.len() as int, cs, step);
}

/// A pass of gated word sums (`refine_selector_addu_constraints`) never
/// widens a cell.
pub proof fn law_selector_addu_narrows(rows: Seq<Seq<AbstractInterval>>, cs: Seq<SelectorAddUConstraint>, p: u32)
    requires
        forall|k: int| 0 <= k < cs.len() ==> #[trigger] all_fit(rows, idx_addu(cs[k])),
    ensures
        within(rows_pass((rows, false), rows.len() as int, cs, step_addu_fn(p)).0, rows),
{
    let step = step_addu_fn(p);
    assert forall|r: int| 0 <= r < rows.len() implies #[trigger] steps_narrow(rows, r, cs, step) by {
        assert forall|t: Seq<Seq<AbstractInterval>>, k: int| within(t, rows) && 0 <= k < cs.len() implies within(
            #[trigger] step(t, r, cs[k]).0,
            t,
        ) by {
            let c = cs[k];
            lemma_fit_within(t, rows, idx_addu(c), r);
            lemma_within_refl(t);
            let a = c.a_var_indices@;
            let res = crate::wordop::spec_word_addu(
                crate::symbolic::ZEBRASymbolicExpr::word_value(c.b_limb_exprs, crate::constraint::row_env(t, r, None, p)),
                crate::symbolic::ZEBRASymbolicExpr::word_value(c.c_limb_exprs, crate::constraint::row_env(t, r, None, p)),
            );
            lemma_narrow_bytes_within(t, r, a, res.lo as u32, 4);
            reveal(crate::shrinker::step_addu);
        }
    }
    lemma_rows_pass_within((rows, false), rows.len() as int, cs, step);
}

/// A pass of gated word assignments (`refine_selector_word_assign_constraints`)
/// never widens a cell.
pub proof fn law_selector_word_assign_narrows(rows: Seq<Seq<AbstractInterval>>, cs: Seq<SelectorWordAssignConstraint>, p: u32)
    requires
        forall|k: int| 0 <= k < cs.len() ==> #[trigger] all_fit(rows, idx_assign(cs[k])),
    ensures
        within(rows_pass((rows, false), rows.len() as int, cs, step_assign_fn(p)).0, rows),
{
    let step = step_assign_fn(p);
    assert forall|r: int| 0 <= r < rows.len() implies #[trigger] steps_narrow(rows, r, cs, step) by {
        assert forall|t: Seq<Seq<AbstractInterval>>, k: int| within(t, rows) && 0 <= k < cs.len() implies within(
            #[trigger] step(t, r, cs[k]).0,
            t,
        ) by {
            let c = cs[k];
            lemma_fit_within(t, rows, idx_assign(c), r);
            lemma_within_refl(t);
            let rhs = c.rhs_expr.value_of(crate::constraint::row_env(t, r, None, p));
            lemma_narrow_bytes_within(t, r, c.a_var_indices@, rhs.lo as u32, 4);
            reveal(crate::shrinker::step_assign);
        }
    }
    lemma_rows_pass_within((rows, false), rows.len() as int, cs, step);
}

proof fn lemma_abir_rows_within(st: AbirState, c: AbirConstraint, n: int, p: u32)
    requires
        n <= st.0.len(),
        all_fit(st.0, idx_abir(c)),
    ensures
        within(abir_rows(st, c, n, p).0, st.0),
    decreases n,
{
    if n <= 0 {
        lemma_within_refl(st.0);
    } else {
        lemma_abir_rows_within(st, c, n - 1, p);
        let prev = abir_rows(st, c, n - 1, p);
        if !prev.1 {
            lemma_fit_within(prev.0, st.0, idx_abir(c), n - 1);
            assert(idx_abir(c)[1] == c.quotient_var);
            let x = abir_step(prev, n - 1, c, p).0;
            assert forall|q: int| 0 <= q < x.len() implies (#[trigger] x[q]).len() == prev.0[q].len() by {
            }
            assert forall|q: int, j: int| 0 <= q < x.len() && 0 <= j < x[q].len() implies cell_within(
                #[trigger] x[q][j],
                prev.0[q][j],
            ) by {
            }
            assert(within(x, prev.0));
            lemma_within_trans(x, prev.0, st.0);
        }
    }
}

proof fn lemma_abir_all_within(st: AbirState, cs: Seq<AbirConstraint>, k: int, p: u32)
    requires
        0 <= k <= cs.len(),
        forall|i: int| 0 <= i < cs.len() ==> #[trigger] all_fit(st.0, idx_abir(cs[i])),
    ensures
        within(abir_all(st, cs, k, p).0, st.0),
    decreases k,
{
    if k <= 0 {
        lemma_within_refl(st.0);
    } else {
        lemma_abir_all_within(st, cs, k - 1, p);
        let prev = abir_all(st, cs, k - 1, p);
        let c = cs[k - 1];
        assert(all_fit(st.0, idx_abir(c)));
        assert(all_fit(prev.0, idx_abir(c))) by {
            assert forall|i: int, r: int| 0 <= i < idx_abir(c).len() && 0 <= r < prev.0.len() implies (#[trigger] idx_abir(c)[i]) < (#[trigger] prev.0[r]).len() by {
                assert(idx_abir(c)[i] < st.0[r].len());
            }
        }
        lemma_abir_rows_within(prev, c, st.0.len() as int, p);
        lemma_within_trans(abir_rows(prev, c, st.0.len() as int, p).0, prev.0, st.0);
    }
}

/// The affine refinements (`apply_abir_refinement`) never widen a cell.
pub proof fn law_abir_narrows(rows: Seq<Seq<AbstractInterval>>, cs: Seq<AbirConstraint>, p: u32)
    requires
        forall|k: int| 0 <= k < cs.len() ==> #[trigger] all_fit(rows, idx_abir(cs[k])),
    ensures
        within(abir_all((rows, false, Seq::empty()), cs, cs.len() as int, p).0, rows),
{
    lemma_abir_all_within((rows, false, Seq::empty()), cs, cs.len() as int, p);
}

// ----------------------------------------------------------------------
// the passes keep every concrete solution
// ----------------------------------------------------------------------

/// A concrete table of field elements lies in the table: same shape, each
/// value in `[0, p)` and in the interval of its cell.
pub open spec fn conc_in(c: Seq<Seq<int>>, rows: Seq<Seq<AbstractInterval>>, p: int) -> bool {
    &&& c.len() == rows.len()
    &&& forall|r: int| 0 <= r < c.len() ==> (#[trigger] c[r]).len() == rows[r].len()
    &&& forall|r: int, j: int|
        0 <= r < c.len() && 0 <= j < c[r].len() ==> {
            &&& 0 <= #[trigger] c[r][j] < p
            &&& rows[r][j].lo <= c[r][j] <= rows[r][j].hi
        }
}

/// On every table that holds the concrete table, each step at row `r`
/// keeps it and finds no contradiction.
pub open spec fn steps_keep<C>(
    conc: Seq<Seq<int>>,
    p: int,
    r: int,
    cs: Seq<C>,
    step: spec_fn(Seq<Seq<AbstractInterval>>, int, C) -> PassState,
) -> bool {
    forall|t: Seq<Seq<AbstractInterval>>, k: int|
        conc_in(conc, t, p) && 0 <= k < cs.len() ==> {
            &&& conc_in(conc, (#[trigger] step(t, r, cs[k])).0, p)
            &&& !step(t, r, cs[k]).1
        }
}

proof fn lemma_row_pass_keeps<C>(
    conc: Seq<Seq<int>>,
    p: int,
    st: PassState,
    r: int,
    cs: Seq<C>,
    k: int,
    step: spec_fn(Seq<Seq<AbstractInterval>>, int, C) -> PassState,
)
    requires
        0 <= k <= cs.len(),
        conc_in(conc, st.0, p),
        !st.1,
        steps_keep(conc, p, r, cs, step),
    ensures
        conc_in(conc, row_pass(st, r, cs, k, step).0, p),
        !row_pass(st, r, cs, k, step).1,
    decreases k,
{
    if k > 0 {
        lemma_row_pass_keeps(conc, p, st, r, cs, k - 1, step);
        let prev = row_pass(st, r, cs, k - 1, step);
        let next = step(prev.0, r, cs[k - 1]);
        assert(conc_in(conc, next.0, p) && !next.1);
    }
}

proof fn lemma_rows_pass_keeps<C>(
    conc: Seq<Seq<int>>,
    p: int,
    st: PassState,
    n: int,
    cs: Seq<C>,
    step: spec_fn(Seq<Seq<AbstractInterval>>, int, C) -> PassState,
)
    requires
        conc_in(conc, st.0, p),
        !st.1,
        forall|r: int| 0 <= r < n ==> #[trigger] steps_keep(conc, p, r, cs, step),
    ensures
        conc_in(conc, rows_pass(st, n, cs, step).0, p),
        !rows_pass(st, n, cs, step).1,
    decreases n,
{
    if n > 0 {
        lemma_rows_pass_keeps(conc, p, st, n - 1, cs, step);
        assert(steps_keep(conc, p, n - 1, cs, step));
        lemma_row_pass_keeps(conc, p, rows_pass(st, n - 1, cs, step), n - 1, cs, cs.len() as int, step);
    }
}

/// Two field elements equal modulo `p` are equal.
proof fn lemma_field_eq(x: int, y: int, p: int)
    requires
        p > 0,
        0 <= x < p,
        0 <= y < p,
        (x - y) % p == 0,
    ensures
        x == y,
{
    if x > y {
        vstd::arithmetic::div_mod::lemma_small_mod((x - y) as nat, p as nat);
    } else if x < y {
        vstd::arithmetic::div_mod::lemma_small_mod((y - x) as nat, p as nat);
        vstd::arithmetic::div_mod::lemma_mod_sub_multiples_vanish(x - y + p, p);
        assert((x - y + p) % p == (x - y + p - p) % p);
        vstd::arithmetic::div_mod::lemma_small_mod((x - y + p) as nat, p as nat);
    }
}

/// A field element `x` with `s * (x - t) = 0`, `s` fixed at 1, is `t`.
proof fn lemma_gated_eq(s: int, x: int, t: int, p: int)
    requires
        p > 0,
        s == 1,
        0 <= x < p,
        0 <= t < p,
        (s * (x - t)) % p == 0,
    ensures
        x == t,
{
    assert(s * (x - t) == x - t);
    lemma_field_eq(x, t, p);
}

/// The gated constant assignments `s * (curr[v] - t) = 0` hold on every
/// row of the concrete table, in the field of `p`.
pub open spec fn sat_var_sub_const(c: Seq<Seq<int>>, cs: Seq<(usize, usize, i128)>, p: int) -> bool {
    forall|r: int, k: int|
        0 <= r < c.len() && 0 <= k < cs.len() ==> (#[trigger] c[r][cs[k].0 as int] * (c[r][cs[k].1 as int] - #[trigger] cs[k].2))
            % p == 0
}

/// A pass of gated constant assignments keeps every concrete table of
/// field elements that lies in the table and satisfies the constraints, and
/// so finds a contradiction only when there is none: the table it leaves
/// still holds each such table, and it reports no contradiction.
pub proof fn law_var_sub_const_keeps_solutions(
    rows: Seq<Seq<AbstractInterval>>,
    cs: Seq<(usize, usize, i128)>,
    p: int,
    conc: Seq<Seq<int>>,
)
    requires
        p > 0,
        forall|k: int| 0 <= k < cs.len() ==> all_rows_have(rows, (#[trigger] cs[k]).0 as int) && all_rows_have(rows, cs[k].1 as int),
        forall|k: int| 0 <= k < cs.len() ==> 0 <= (#[trigger] cs[k]).2 < p,
        conc_in(conc, rows, p),
        sat_var_sub_const(conc, cs, p),
    ensures
        conc_in(conc, rows_pass((rows, false), rows.len() as int, cs, step_var_sub_const_fn()).0, p),
        !rows_pass((rows, false), rows.len() as int, cs, step_var_sub_const_fn()).1,
{
    let step = step_var_sub_const_fn();
    assert forall|r: int| 0 <= r < rows.len() implies #[trigger] steps_keep(conc, p, r, cs, step) by {
        assert forall|t: Seq<Seq<AbstractInterval>>, k: int| conc_in(conc, t, p) && 0 <= k < cs.len() implies {
            &&& conc_in(conc, (#[trigger] step(t, r, cs[k])).0, p)
            &&& !step(t, r, cs[k]).1
        } by {
            let c = cs[k];
            let (si, vi) = (c.0 as int, c.1 as int);
            assert(si < rows[r].len() && vi < rows[r].len());
            assert(step(t, r, c) == step_var_sub_const(t, r, c));
            if fires(t[r][si]) {
                assert(conc[r][si] == 1);
                assert((conc[r][si] * (conc[r][vi] - c.2)) % p == 0);
                lemma_gated_eq(conc[r][si], conc[r][vi], c.2 as int, p);
                let x = t[r][vi].spec_intersect(single(c.2));
                assert(x is Some);
                let nt = step(t, r, c).0;
                assert(nt == t.update(r, t[r].update(vi, x->0)));
                assert forall|q: int, j: int| 0 <= q < conc.len() && 0 <= j < conc[q].len() implies {
                    &&& 0 <= #[trigger] conc[q][j] < p
                    &&& nt[q][j].lo <= conc[q][j] <= nt[q][j].hi
                } by {
                    assert(t[q][j].lo <= conc[q][j] <= t[q][j].hi);
                }
                assert forall|q: int| 0 <= q < conc.len() implies (#[trigger] conc[q]).len() == nt[q].len() by {
                }
            }
        }
    }
    lemma_rows_pass_keeps(conc, p, (rows, false), rows.len() as int, cs, step);
}

/// The gated equalities `s * (curr[a] - curr[b]) = 0` hold on every row of
/// the concrete table, in the field of `p`.
pub open spec fn sat_var_sub_var(c: Seq<Seq<int>>, cs: Seq<(usize, usize, usize)>, p: int) -> bool {
    forall|r: int, k: int|
        0 <= r < c.len() && 0 <= k < cs.len() ==> (#[trigger] c[r][cs[k].0 as int] * (c[r][cs[k].1 as int] - c[r][(#[trigger] cs[k]).2 as int]))
            % p == 0
}

/// A pass of gated equalities keeps every concrete table of field elements
/// that lies in the table and satisfies the constraints, and reports no
/// contradiction when there is one.
pub proof fn law_var_sub_var_keeps_solutions(
    rows: Seq<Seq<AbstractInterval>>,
    cs: Seq<(usize, usize, usize)>,
    p: int,
    conc: Seq<Seq<int>>,
)
    requires
        p > 0,
        forall|k: int| 0 <= k < cs.len() ==> #[trigger] all_fit(rows, idx_vsv(cs[k])),
        conc_in(conc, rows, p),
        sat_var_sub_var(conc, cs, p),
    ensures
        conc_in(conc, rows_pass((rows, false), rows.len() as int, cs, step_var_sub_var_fn()).0, p),
        !rows_pass((rows, false), rows.len() as int, cs, step_var_sub_var_fn()).1,
{
    let step = step_var_sub_var_fn();
    assert forall|r: int| 0 <= r < rows.len() implies #[trigger] steps_keep(conc, p, r, cs, step) by {
        assert forall|t: Seq<Seq<AbstractInterval>>, k: int| conc_in(conc, t, p) && 0 <= k < cs.len() implies {
            &&& conc_in(conc, (#[trigger] step(t, r, cs[k])).0, p)
            &&& !step(t, r, cs[k]).1
        } by {
            let c = cs[k];
            assert(all_fit(rows, idx_vsv(c)));
            assert(idx_vsv(c)[0] == c.0 && idx_vsv(c)[1] == c.1 && idx_vsv(c)[2] == c.2);
            let (si, ai, bi) = (c.0 as int, c.1 as int, c.2 as int);
            assert(si < rows[r].len() && ai < rows[r].len() && bi < rows[r].len());
            assert(step(t, r, c) == step_var_sub_var(t, r, c));
            if fires(t[r][si]) {
                assert(conc[r][si] == 1);
                assert((conc[r][si] * (conc[r][ai] - conc[r][bi])) % p == 0);
                lemma_gated_eq(conc[r][si], conc[r][ai], conc[r][bi], p);
                let x = t[r][ai].spec_intersect(t[r][bi]);
                assert(x is Some);
                let nt = step(t, r, c).0;
                assert(nt == t.update(r, t[r].update(ai, x->0).update(bi, x->0)));
                assert forall|q: int, j: int| 0 <= q < conc.len() && 0 <= j < conc[q].len() implies {
                    &&& 0 <= #[trigger] conc[q][j] < p
                    &&& nt[q][j].lo <= conc[q][j] <= nt[q][j].hi
                } by {
                    assert(t[q][j].lo <= conc[q][j] <= t[q][j].hi);
                }
                assert forall|q: int| 0 <= q < conc.len() implies (#[trigger] conc[q]).len() == nt[q].len() by {
                }
            }
        }
    }
    lemma_rows_pass_keeps(conc, p, (rows, false), rows.len() as int, cs, step);
}

/// The factor of a selector: the selector itself, or one minus it when
/// `inv`.
pub open spec fn pol_factor(s: int, inv: bool) -> int {
    if inv {
        1 - s
    } else {
        s
    }
}

/// The doubly gated constant assignments `f1 * f2 * (curr[v] - t) = 0`,
/// each `f` a selector or one minus it, hold on every row of the concrete
/// table, in the field of `p`.
pub open spec fn sat_double_sel_vsc(c: Seq<Seq<int>>, cs: Seq<(usize, bool, usize, bool, usize, i128)>, p: int) -> bool {
    forall|r: int, k: int|
        0 <= r < c.len() && 0 <= k < cs.len() ==> (pol_factor(c[r][cs[k].0 as int], cs[k].1) * pol_factor(
            c[r][cs[k].2 as int],
            cs[k].3,
        ) * (#[trigger] c[r][cs[k].4 as int] - (#[trigger] cs[k]).5)) % p == 0
}

/// A pass of doubly gated constant assignments keeps every concrete table
/// of field elements that lies in the table and satisfies the constraints,
/// and reports no contradiction when there is one.
pub proof fn law_double_sel_var_sub_const_keeps_solutions(
    rows: Seq<Seq<AbstractInterval>>,
    cs: Seq<(usize, bool, usize, bool, usize, i128)>,
    p: int,
    conc: Seq<Seq<int>>,
)
    requires
        p > 0,
        forall|k: int| 0 <= k < cs.len() ==> #[trigger] all_fit(rows, idx_dsv(cs[k])),
        forall|k: int| 0 <= k < cs.len() ==> 0 <= (#[trigger] cs[k]).5 < p,
        conc_in(conc, rows, p),
        sat_double_sel_vsc(conc, cs, p),
    ensures
        conc_in(conc, rows_pass((rows, false), rows.len() as int, cs, step_double_sel_vsc_fn()).0, p),
        !rows_pass((rows, false), rows.len() as int, cs, step_double_sel_vsc_fn()).1,
{
    let step = step_double_sel_vsc_fn();
    assert forall|r: int| 0 <= r < rows.len() implies #[trigger] steps_keep(conc, p, r, cs, step) by {
        assert forall|t: Seq<Seq<AbstractInterval>>, k: int| conc_in(conc, t, p) && 0 <= k < cs.len() implies {
            &&& conc_in(conc, (#[trigger] step(t, r, cs[k])).0, p)
            &&& !step(t, r, cs[k]).1
        } by {
            let c = cs[k];
            assert(all_fit(rows, idx_dsv(c)));
            assert(idx_dsv(c)[0] == c.0 && idx_dsv(c)[1] == c.2 && idx_dsv(c)[2] == c.4);
            let (s1, s2, vi) = (c.0 as int, c.2 as int, c.4 as int);
            assert(s1 < rows[r].len() && s2 < rows[r].len() && vi < rows[r].len());
            assert(step(t, r, c) == step_double_sel_vsc(t, r, c));
            if fires_pol(t[r][s1], c.1) && fires_pol(t[r][s2], c.3) {
                assert(pol_factor(conc[r][s1], c.1) == 1);
                assert(pol_factor(conc[r][s2], c.3) == 1);
                assert((pol_factor(conc[r][s1], c.1) * pol_factor(conc[r][s2], c.3) * (conc[r][vi] - c.5)) % p == 0);
                lemma_gated_eq(1, conc[r][vi], c.5 as int, p);
                let x = t[r][vi].spec_intersect(single(c.5));
                assert(x is Some);
                let nt = step(t, r, c).0;
                assert(nt == t.update(r, t[r].update(vi, x->0)));
                assert forall|q: int, j: int| 0 <= q < conc.len() && 0 <= j < conc[q].len() implies {
                    &&& 0 <= #[trigger] conc[q][j] < p
                    &&& nt[q][j].lo <= conc[q][j] <= nt[q][j].hi
                } by {
                    assert(t[q][j].lo <= conc[q][j] <= t[q][j].hi);
                }
                assert forall|q: int| 0 <= q < conc.len() implies (#[trigger] conc[q]).len() == nt[q].len() by {
                }
            }
        }
    }
    lemma_rows_pass_keeps(conc, p, (rows, false), rows.len() as int, cs, step);
}

// ----------------------------------------------------------------------
// the affine refinements
// ----------------------------------------------------------------------

/// A detected affine constraint `(a, L, e, d)` has a positive stride `d`,
/// and neither `a` nor `e` is a column of `L`.
pub open spec fn abir_well_formed(x: (usize, ZEBRASymbolicExpr, usize, int)) -> bool {
    &&& x.3 > 0
    &&& !simple_cols_of(x.1).contains(x.0)
    &&& !simple_cols_of(x.1).contains(x.2)
}

/// The affine constraints detected among `cs` (`detect_abir_constraints`)
/// are each well formed, and there are no more of them than constraints.
pub proof fn law_abir_detection(cs: Seq<ZEBRASymbolicExpr>, p: u32)
    requires
        p > 0,
    ensures
        collect_some(cs, abir_of_fn(p)).len() <= cs.len(),
        forall|k: int| 0 <= k < collect_some(cs, abir_of_fn(p)).len() ==> #[trigger] abir_well_formed(collect_some(cs, abir_of_fn(p))[k]),
    decreases cs.len(),
{
    if cs.len() > 0 {
        law_abir_detection(cs.drop_last(), p);
        let prev = collect_some(cs.drop_last(), abir_of_fn(p));
        let c = cs.last();
        match abir_of(c, p) {
            Some(x) => {
                let r = collect_some(cs, abir_of_fn(p));
                assert(r == prev.push(x));
                lemma_abir_of_well_formed(c, p);
                assert forall|k: int| 0 <= k < r.len() implies #[trigger] abir_well_formed(r[k]) by {
                    if k < prev.len() {
                        assert(r[k] == prev[k]);
                    }
                }
            },
            None => {},
        }
    }
}

proof fn lemma_abir_of_well_formed(c: ZEBRASymbolicExpr, p: u32)
    requires
        p > 0,
    ensures
        abir_of(c, p) matches Some(x) ==> abir_well_formed(x),
{
    match c {
        ZEBRASymbolicExpr::Sub(lhs, rhs) => match *lhs {
            ZEBRASymbolicExpr::Variable(a) => match crate::shrinker::spec_move_sub_expr_to_right(*rhs) {
                ZEBRASymbolicExpr::Sub(l, de) => match scaled_var(*de, p) {
                    Some((e, d)) => {
                        assert(d >= 0) by {
                            match *de {
                                ZEBRASymbolicExpr::Mul(x, y) => match (*x, *y) {
                                    (ZEBRASymbolicExpr::Variable(v), ZEBRASymbolicExpr::Constant(k)) => {
                                        vstd::arithmetic::div_mod::lemma_mod_bound(k.lo as int, p as int);
                                    },
                                    (ZEBRASymbolicExpr::Constant(k), ZEBRASymbolicExpr::Variable(v)) => {
                                        vstd::arithmetic::div_mod::lemma_mod_bound(k.lo as int, p as int);
                                    },
                                    _ => {},
                                },
                                _ => {},
                            }
                        }
                    },
                    None => {},
                },
                _ => {},
            },
            _ => {},
        },
        _ => {},
    }
}

/// Column `j` is the quotient column of one of the affine constraints.
pub open spec fn is_quotient_col(cs: Seq<AbirConstraint>, j: int) -> bool {
    exists|k: int| 0 <= k < cs.len() && (#[trigger] cs[k]).quotient_var as int == j
}

/// Each entry of the log, from index `from` on, records a cell and its
/// narrowed value, which lies within it.
pub open spec fn log_narrows(log: Seq<(AbstractInterval, AbstractInterval)>, from: int) -> bool {
    forall|i: int| from <= i < log.len() ==> cell_within((#[trigger] log[i]).1, log[i].0)
}

proof fn lemma_abir_rows_effect(st: AbirState, c: AbirConstraint, n: int, p: u32)
    requires
        n <= st.0.len(),
        all_fit(st.0, idx_abir(c)),
    ensures
        ({
            let r = abir_rows(st, c, n, p);
            &&& same_shape(r.0, st.0)
            &&& forall|q: int, j: int| 0 <= q < st.0.len() && 0 <= j < st.0[q].len() && j != c.quotient_var as int ==> r.0[q][j] == #[trigger] st.0[q][j]
            &&& st.2.len() <= r.2.len()
            &&& r.2.take(st.2.len() as int) == st.2
            &&& log_narrows(r.2, st.2.len() as int)
        }),
    decreases n,
{
    if n <= 0 {
        assert(st.2.take(st.2.len() as int) =~= st.2);
    } else {
        lemma_abir_rows_effect(st, c, n - 1, p);
        let prev = abir_rows(st, c, n - 1, p);
        if !prev.1 {
            lemma_abir_rows_within(st, c, n - 1, p);
            lemma_fit_within(prev.0, st.0, idx_abir(c), n - 1);
            assert(idx_abir(c)[1] == c.quotient_var);
            let s0 = n - 1;
            let next = abir_step(prev, s0, c, p);
            let r = abir_rows(st, c, n, p);
            assert(r == next);
            let rows = prev.0;
            let rhs = c.affine_rhs.value_of(crate::constraint::row_env(rows, s0, None, p));
            let inferred = rhs.spec_sub(rows[s0][c.lhs_var as int]).spec_div_floor(c.stride as int);
            match rows[s0][c.quotient_var as int].spec_intersect(inferred) {
                Some(x) => {
                    assert(r.2 == prev.2.push((rows[s0][c.quotient_var as int], x)));
                    assert(r.2.take(st.2.len() as int) =~= prev.2.take(st.2.len() as int));
                    assert forall|q: int| 0 <= q < r.0.len() implies (#[trigger] r.0[q]).len() == st.0[q].len() by {
                    }
                },
                None => {},
            }
        }
    }
}

proof fn lemma_abir_all_effect(st: AbirState, cs: Seq<AbirConstraint>, k: int, p: u32)
    requires
        0 <= k <= cs.len(),
        forall|i: int| 0 <= i < cs.len() ==> #[trigger] all_fit(st.0, idx_abir(cs[i])),
    ensures
        ({
            let r = abir_all(st, cs, k, p);
            &&& same_shape(r.0, st.0)
            &&& forall|q: int, j: int| 0 <= q < st.0.len() && 0 <= j < st.0[q].len() && !is_quotient_col(cs, j) ==> r.0[q][j] == #[trigger] st.0[q][j]
            &&& st.2.len() <= r.2.len()
            &&& r.2.take(st.2.len() as int) == st.2
            &&& log_narrows(r.2, st.2.len() as int)
        }),
    decreases k,
{
    if k <= 0 {
        assert(st.2.take(st.2.len() as int) =~= st.2);
    } else {
        lemma_abir_all_effect(st, cs, k - 1, p);
        let prev = abir_all(st, cs, k - 1, p);
        let c = cs[k - 1];
        assert(all_fit(st.0, idx_abir(c)));
        assert(all_fit(prev.0, idx_abir(c))) by {
            assert forall|i: int, r: int| 0 <= i < idx_abir(c).len() && 0 <= r < prev.0.len() implies (#[trigger] idx_abir(c)[i]) < (#[trigger] prev.0[r]).len() by {
                assert(idx_abir(c)[i] < st.0[r].len());
            }
        }
        lemma_abir_rows_effect(prev, c, st.0.len() as int, p);
        let r = abir_all(st, cs, k, p);
        assert forall|q: int, j: int| 0 <= q < st.0.len() && 0 <= j < st.0[q].len() && !is_quotient_col(cs, j) implies r.0[q][j] == #[trigger] st.0[q][j] by {
            if j == c.quotient_var as int {
                assert(is_quotient_col(cs, j));
            }
            assert(prev.0[q][j] == st.0[q][j]);
        }
        assert(r.2.take(st.2.len() as int) =~= r.2.take(prev.2.len() as int).take(st.2.len() as int));
        assert forall|i: int| st.2.len() <= i < r.2.len() implies cell_within((#[trigger] r.2[i]).1, r.2[i].0) by {
            if i < prev.2.len() {
                assert(r.2[i] == r.2.take(prev.2.len() as int)[i]);
                assert(prev.2[i] == r.2[i]);
            }
        }
    }
}

/// The affine refinements (`apply_abir_refinement`) change no cell outside
/// the quotient columns of their constraints, and each entry of their log
/// pairs a quotient cell with its narrowed value, which lies within it.
pub proof fn law_abir_changes(rows: Seq<Seq<AbstractInterval>>, cs: Seq<AbirConstraint>, p: u32)
    requires
        forall|k: int| 0 <= k < cs.len() ==> #[trigger] all_fit(rows, idx_abir(cs[k])),
    ensures
        ({
            let r = abir_all((rows, false, Seq::empty()), cs, cs.len() as int, p);
            &&& same_shape(r.0, rows)
            &&& forall|q: int, j: int| 0 <= q < rows.len() && 0 <= j < rows[q].len() && !is_quotient_col(cs, j) ==> r.0[q][j] == #[trigger] rows[q][j]
            &&& log_narrows(r.2, 0)
        }),
{
    lemma_abir_all_effect((rows, false, Seq::empty()), cs, cs.len() as int, p);
}

/// Moving a subtraction out of a sum (`move_sub_expr_to_right`) leaves the
/// abstract value unchanged wherever both forms can be evaluated.
pub proof fn law_move_sub_keeps_value(e: ZEBRASymbolicExpr, env: crate::symbolic::EvalEnv)
    requires
        e.evaluable(env),
        crate::shrinker::spec_move_sub_expr_to_right(e).evaluable(env),
    ensures
        crate::shrinker::spec_move_sub_expr_to_right(e).value_of(env) == e.value_of(env),
{
    match e {
        ZEBRASymbolicExpr::Add(l1, r1) => match *l1 {
            ZEBRASymbolicExpr::Sub(l2, r2) => {
                let a = l2.value_of(env);
                let b = r1.value_of(env);
                let c = r2.value_of(env);
                let ab = ZEBRASymbolicExpr::Add(l2, r1);
                let m = ZEBRASymbolicExpr::Sub(Box::new(ab), r2);
                assert(crate::shrinker::spec_move_sub_expr_to_right(e) == m);
                assert(m.evaluable(env));
                assert(ab.evaluable(env));
                assert(ab.value_of(env) == a.spec_add(b));
                assert(a.add_ok(b));
                assert(a.spec_add(b).sub_ok(c));
                assert(l1.evaluable(env));
                assert(l1.value_of(env) == a.spec_sub(c));
            },
            _ => {},
        },
        _ => {},
    }
}

// ----------------------------------------------------------------------
// what a pass of gated constant assignments leaves
// ----------------------------------------------------------------------

/// Column `j` is the selector column of one of the constraints.
pub open spec fn is_selector_col(cs: Seq<(usize, usize, i128)>, j: int) -> bool {
    exists|k: int| 0 <= k < cs.len() && (#[trigger] cs[k]).0 as int == j
}

/// On row `r` of `t`, each of the first `k` constraints whose selector fires
/// has its value cell fixed at its constant.
pub open spec fn vsc_enforced(t: Seq<Seq<AbstractInterval>>, r: int, cs: Seq<(usize, usize, i128)>, k: int) -> bool {
    forall|l: int| 0 <= l < k && fires(t[r][cs[l].0 as int]) ==> t[r][(#[trigger] cs[l]).1 as int] == single(cs[l].2)
}

/// The conditions of the law: every column named exists in every row, and
/// no value column is a selector column.
pub open spec fn vsc_ok(rows: Seq<Seq<AbstractInterval>>, cs: Seq<(usize, usize, i128)>) -> bool {
    &&& forall|k: int| 0 <= k < cs.len() ==> all_rows_have(rows, (#[trigger] cs[k]).0 as int) && all_rows_have(rows, cs[k].1 as int)
    &&& forall|k: int| 0 <= k < cs.len() ==> !is_selector_col(cs, (#[trigger] cs[k]).1 as int)
}

/// Tables `a` and `b` have the same shape and agree on every row but `r`
/// and, on row `r`, on the selector columns.
pub open spec fn vsc_frame(a: Seq<Seq<AbstractInterval>>, b: Seq<Seq<AbstractInterval>>, r: int, cs: Seq<(usize, usize, i128)>) -> bool {
    &&& same_shape(a, b)
    &&& forall|q: int| 0 <= q < a.len() && q != r ==> #[trigger] a[q] == b[q]
    &&& forall|l: int| 0 <= l < cs.len() ==> a[r][(#[trigger] cs[l]).0 as int] == b[r][cs[l].0 as int]
}

proof fn lemma_vsc_row(st: PassState, r: int, cs: Seq<(usize, usize, i128)>, k: int)
    requires
        0 <= r < st.0.len(),
        0 <= k <= cs.len(),
        vsc_ok(st.0, cs),
        !st.1,
    ensures
        ({
            let res = row_pass(st, r, cs, k, step_var_sub_const_fn());
            !res.1 ==> vsc_frame(res.0, st.0, r, cs) && vsc_enforced(res.0, r, cs, k)
        }),
    decreases k,
{
    let step = step_var_sub_const_fn();
    if k > 0 {
        lemma_vsc_row(st, r, cs, k - 1);
        let prev = row_pass(st, r, cs, k - 1, step);
        let res = row_pass(st, r, cs, k, step);
        if !res.1 {
            assert(!prev.1);
            let c = cs[k - 1];
            let t = prev.0;
            assert(c.0 < st.0[r].len() && c.1 < st.0[r].len());
            assert(step(t, r, c) == step_var_sub_const(t, r, c));
            assert(res == step_var_sub_const(t, r, c));
            assert(!is_selector_col(cs, c.1 as int));
            assert forall|l: int| 0 <= l < cs.len() implies c.1 != (#[trigger] cs[l]).0 by {
                if c.1 == cs[l].0 {
                    assert(is_selector_col(cs, c.1 as int));
                }
            }
            if fires(t[r][c.0 as int]) {
                let x = t[r][c.1 as int].spec_intersect(single(c.2));
                assert(x is Some);
                assert(res.0 == t.update(r, t[r].update(c.1 as int, x->0)));
                assert(x->0 == single(c.2));
                assert forall|q: int| 0 <= q < res.0.len() implies (#[trigger] res.0[q]).len() == st.0[q].len() by {}
                assert forall|l: int| 0 <= l < k && fires(res.0[r][cs[l].0 as int]) implies res.0[r][(#[trigger] cs[l]).1 as int] == single(cs[l].2) by {
                    if l < k - 1 {
                        assert(res.0[r][cs[l].0 as int] == t[r][cs[l].0 as int]);
                        if cs[l].1 != c.1 {
                            assert(t[r][cs[l].1 as int] == single(cs[l].2));
                        } else {
                            assert(t[r][cs[l].1 as int] == single(cs[l].2));
                        }
                    }
                }
            } else {
                assert(res.0 == t);
                assert forall|l: int| 0 <= l < k && fires(res.0[r][cs[l].0 as int]) implies res.0[r][(#[trigger] cs[l]).1 as int] == single(cs[l].2) by {
                    if l == k - 1 {
                        assert(res.0[r][cs[l].0 as int] == t[r][c.0 as int]);
                    }
                }
            }
        }
    }
}

proof fn lemma_vsc_rows(rows: Seq<Seq<AbstractInterval>>, n: int, cs: Seq<(usize, usize, i128)>)
    requires
        0 <= n <= rows.len(),
        vsc_ok(rows, cs),
    ensures
        ({
            let res = rows_pass((rows, false), n, cs, step_var_sub_const_fn());
            !res.1 ==> {
                &&& same_shape(res.0, rows)
                &&& forall|q: int| n <= q < rows.len() ==> #[trigger] res.0[q] == rows[q]
                &&& forall|q: int| 0 <= q < n ==> #[trigger] vsc_enforced(res.0, q, cs, cs.len() as int)
                &&& forall|q: int, l: int| 0 <= q < rows.len() && 0 <= l < cs.len() ==> #[trigger] res.0[q][cs[l].0 as int] == #[trigger] rows[q][cs[l].0 as int]
            }
        }),
    decreases n,
{
    let step = step_var_sub_const_fn();
    if n > 0 {
        lemma_vsc_rows(rows, n - 1, cs);
        let prev = rows_pass((rows, false), n - 1, cs, step);
        let res = rows_pass((rows, false), n, cs, step);
        if !res.1 {
            if prev.1 {
                lemma_row_pass_stays_false(prev, n - 1, cs, cs.len() as int, step);
            }
            assert(!prev.1);
            assert(vsc_ok(prev.0, cs)) by {
                assert forall|k: int| 0 <= k < cs.len() implies all_rows_have(prev.0, (#[trigger] cs[k]).0 as int) && all_rows_have(prev.0, cs[k].1 as int) by {
                    assert forall|q: int| 0 <= q < prev.0.len() implies cs[k].0 < (#[trigger] prev.0[q]).len() && cs[k].1 < prev.0[q].len() by {
                        assert(cs[k].0 < rows[q].len() && cs[k].1 < rows[q].len());
                    }
                }
            }
            lemma_vsc_row(prev, n - 1, cs, cs.len() as int);
            assert forall|q: int| 0 <= q < res.0.len() implies (#[trigger] res.0[q]).len() == rows[q].len() by {
                assert(res.0[q].len() == prev.0[q].len());
            }
            assert forall|q: int| 0 <= q < n implies #[trigger] vsc_enforced(res.0, q, cs, cs.len() as int) by {
                if q < n - 1 {
                    assert(res.0[q] == prev.0[q]);
                    assert(vsc_enforced(prev.0, q, cs, cs.len() as int));
                }
            }
            assert forall|q: int, l: int| 0 <= q < rows.len() && 0 <= l < cs.len() implies #[trigger] res.0[q][cs[l].0 as int] == #[trigger] rows[q][cs[l].0 as int] by {
                if q != n - 1 {
                    assert(res.0[q] == prev.0[q]);
                }
            }
        }
    }
}

proof fn lemma_row_pass_stays_false<C>(st: PassState, r: int, cs: Seq<C>, k: int, step: spec_fn(Seq<Seq<AbstractInterval>>, int, C) -> PassState)
    requires
        0 <= k,
        st.1,
    ensures
        row_pass(st, r, cs, k, step) == st,
    decreases k,
{
    if k > 0 {
        lemma_row_pass_stays_false(st, r, cs, k - 1, step);
    }
}

/// After a pass of gated constant assignments
/// (`refine_conditional_constraints_var_sub_const`) that finds no
/// contradiction, on every row each constraint whose selector fires has its
/// value cell fixed at its constant, provided no value column is also a
/// selector column.
pub proof fn law_var_sub_const_enforced(rows: Seq<Seq<AbstractInterval>>, cs: Seq<(usize, usize, i128)>)
    requires
        vsc_ok(rows, cs),
    ensures
        ({
            let res = rows_pass((rows, false), rows.len() as int, cs, step_var_sub_const_fn());
            !res.1 ==> forall|r: int, k: int|
                0 <= r < rows.len() && 0 <= k < cs.len() && fires(res.0[r][cs[k].0 as int]) ==> #[trigger] res.0[r][cs[k].1 as int]
                    == single(cs[k].2)
        }),
{
    lemma_vsc_rows(rows, rows.len() as int, cs);
    let res = rows_pass((rows, false), rows.len() as int, cs, step_var_sub_const_fn());
    if !res.1 {
        assert forall|r: int, k: int| 0 <= r < rows.len() && 0 <= k < cs.len() && fires(res.0[r][cs[k].0 as int]) implies #[trigger] res.0[r][cs[k].1 as int]
            == single(cs[k].2) by {
            assert(vsc_enforced(res.0, r, cs, cs.len() as int));
        }
    }
}

proof fn lemma_narrow_bytes_fixes(rows: Seq<Seq<AbstractInterval>>, r: int, a: Seq<usize>, t: u32, k: int)
    requires
        0 <= r < rows.len(),
        0 <= k <= a.len(),
        k <= 4,
        forall|i: int| 0 <= i < a.len() ==> (#[trigger] a[i]) < rows[r].len(),
    ensures
        ({
            let res = narrow_bytes(rows, r, a, t, k);
            !res.1 ==> {
                &&& same_shape(res.0, rows)
                &&& forall|i: int| 0 <= i < k ==> res.0[r][(#[trigger] a[i]) as int] == single(crate::shrinker::byte_of(t, i as u32))
            }
        }),
    decreases k,
{
    if k > 0 {
        lemma_narrow_bytes_fixes(rows, r, a, t, k - 1);
        lemma_narrow_bytes_within(rows, r, a, t, k - 1);
        let prev = narrow_bytes(rows, r, a, t, k - 1);
        let res = narrow_bytes(rows, r, a, t, k);
        if !res.1 {
            assert(!prev.1);
            let b = single(crate::shrinker::byte_of(t, (k - 1) as u32));
            let j = a[k - 1] as int;
            assert(j < prev.0[r].len());
            let x = prev.0[r][j].spec_intersect(b);
            assert(x is Some);
            assert(res.0 == prev.0.update(r, prev.0[r].update(j, x->0)));
            assert(x->0 == b);
            assert forall|q: int| 0 <= q < res.0.len() implies (#[trigger] res.0[q]).len() == rows[q].len() by {}
            assert forall|i: int| 0 <= i < k implies res.0[r][(#[trigger] a[i]) as int] == single(crate::shrinker::byte_of(t, i as u32)) by {
                if i < k - 1 && a[i] as int != j {
                    assert(res.0[r][a[i] as int] == prev.0[r][a[i] as int]);
                }
            }
        }
    }
}

/// A gated word assignment step (`refine_selector_word_assign_constraints`)
/// that narrows and finds no contradiction leaves the limb cells fixed at the
/// bytes of the low 32 bits of the right side, least significant first.
pub proof fn law_word_assign_step_fixes_limbs(rows: Seq<Seq<AbstractInterval>>, r: int, c: SelectorWordAssignConstraint, p: u32)
    requires
        0 <= r < rows.len(),
        forall|i: int| 0 <= i < 4 ==> (#[trigger] c.a_var_indices@[i]) < rows[r].len(),
    ensures
        ({
            let env = crate::constraint::row_env(rows, r, None, p);
            let sel = c.selector_expr.value_of(env);
            let rhs = c.rhs_expr.value_of(env);
            let res = crate::shrinker::step_assign(rows, r, c, p);
            sel.lo == sel.hi && sel.lo != 0 && rhs.lo == rhs.hi && crate::shrinker::limbs_are_bytes(rows[r], c.a_var_indices@) && !res.1
                ==> forall|i: int| 0 <= i < 4 ==> res.0[r][(#[trigger] c.a_var_indices@[i]) as int]
                    == single(crate::shrinker::byte_of(rhs.lo as u32, i as u32))
        }),
{
    reveal(crate::shrinker::step_assign);
    let rhs = c.rhs_expr.value_of(crate::constraint::row_env(rows, r, None, p));
    lemma_narrow_bytes_fixes(rows, r, c.a_var_indices@, rhs.lo as u32, 4);
}

/// A gated equality step (`refine_conditional_constraints_var_sub_var`)
/// whose selector fires and that finds no contradiction leaves both cells
/// equal to their common part.
pub proof fn law_var_sub_var_step_equalizes(rows: Seq<Seq<AbstractInterval>>, r: int, c: (usize, usize, usize))
    requires
        0 <= r < rows.len(),
        c.1 < rows[r].len(),
        c.2 < rows[r].len(),
    ensures
        ({
            let res = step_var_sub_var(rows, r, c);
            fires(rows[r][c.0 as int]) && !res.1 ==> {
                &&& res.0[r][c.1 as int] == res.0[r][c.2 as int]
                &&& Some(res.0[r][c.1 as int]) == rows[r][c.1 as int].spec_intersect(rows[r][c.2 as int])
            }
        }),
{
}

// ----------------------------------------------------------------------
// gated sums keep the solutions whose sums do not wrap around
// ----------------------------------------------------------------------

/// The sum of the concrete values at the columns `vs` of a row.
pub open spec fn conc_sum(row: Seq<int>, vs: Seq<usize>) -> int
    decreases vs.len(),
{
    if vs.len() == 0 {
        0
    } else {
        conc_sum(row, vs.drop_last()) + row[vs.last() as int]
    }
}

/// The gated sums `s * (curr[v1] + ... + curr[vn] - t) = 0` hold on every
/// row of the concrete table, in the field of `p`, and each sum of the
/// concrete values is below `p` (it does not wrap around the prime).
pub open spec fn sat_addvars(c: Seq<Seq<int>>, cs: Seq<(usize, Vec<usize>, i128)>, p: int) -> bool {
    forall|r: int, k: int|
        0 <= r < c.len() && 0 <= k < cs.len() ==> {
            &&& (c[r][cs[k].0 as int] * (conc_sum(c[r], (#[trigger] cs[k]).1@) - cs[k].2)) % p == 0
            &&& #[trigger] conc_sum(c[r], cs[k].1@) < p
        }
}

proof fn lemma_conc_sum_nonneg(row: Seq<int>, vs: Seq<usize>)
    requires
        forall|i: int| 0 <= i < vs.len() ==> 0 <= row[(#[trigger] vs[i]) as int],
    ensures
        conc_sum(row, vs) >= 0,
    decreases vs.len(),
{
    if vs.len() > 0 {
        lemma_conc_sum_nonneg(row, vs.drop_last());
        assert(vs.last() == vs[vs.len() - 1]);
    }
}

/// The concrete sum splits into the sums over the single-valued cells and
/// over the others.
proof fn lemma_conc_sum_split(row: Seq<int>, t: Seq<AbstractInterval>, vs: Seq<usize>)
    ensures
        conc_sum(row, vs) == conc_sum(row, singles_in(t, vs)) + conc_sum(row, others_in(t, vs)),
    decreases vs.len(),
{
    if vs.len() > 0 {
        let d = vs.drop_last();
        lemma_conc_sum_split(row, t, d);
        let x = vs.last();
        let si = singles_in(t, d);
        let ot = others_in(t, d);
        assert(si.push(x).drop_last() =~= si);
        assert(ot.push(x).drop_last() =~= ot);
    }
}

/// Over single-valued cells that hold the concrete values, the interval
/// sum is the single concrete sum.
proof fn lemma_sum_cells_single(row: Seq<int>, t: Seq<AbstractInterval>, vs: Seq<usize>, p: int)
    requires
        p <= 0x1_0000_0000,
        vs.len() <= 0x1_0000_0000,
        forall|i: int| 0 <= i < vs.len() ==> (#[trigger] vs[i]) < t.len() && vs[i] < row.len(),
        forall|i: int| 0 <= i < vs.len() ==> t[(#[trigger] vs[i]) as int].lo == t[vs[i] as int].hi,
        forall|j: int| 0 <= j < t.len() && j < row.len() ==> 0 <= #[trigger] row[j] < p && t[j].lo <= row[j] <= t[j].hi,
    ensures
        sum_cells(t, vs) == single(conc_sum(row, vs) as i128),
        0 <= conc_sum(row, vs) <= vs.len() * p,
    decreases vs.len(),
{
    if vs.len() > 0 {
        let d = vs.drop_last();
        assert forall|i: int| 0 <= i < d.len() implies (#[trigger] d[i]) < t.len() && d[i] < row.len() by {
            assert(d[i] == vs[i]);
        }
        assert forall|i: int| 0 <= i < d.len() implies t[(#[trigger] d[i]) as int].lo == t[d[i] as int].hi by {
            assert(d[i] == vs[i]);
        }
        lemma_sum_cells_single(row, t, d, p);
        let x = vs.last();
        assert(x == vs[vs.len() - 1]);
        assert(t[x as int].lo == row[x as int] && t[x as int].hi == row[x as int]);
        assert(conc_sum(row, vs) <= vs.len() * p) by (nonlinear_arith)
            requires
                conc_sum(row, vs) == conc_sum(row, d) + row[x as int],
                conc_sum(row, d) <= d.len() * p,
                row[x as int] < p,
                d.len() + 1 == vs.len(),
        ;
        assert(vs.len() * p <= 0x1_0000_0000 * 0x1_0000_0000) by (nonlinear_arith)
            requires
                vs.len() <= 0x1_0000_0000,
                p <= 0x1_0000_0000,
                0 <= p,
        ;
    }
}

/// A pass of gated sums (`refine_conditional_constraints_addvars_sub_const`)
/// keeps every concrete table of field elements that lies in the table and
/// satisfies the constraints without its sums wrapping around the prime, and
/// then reports no contradiction.
pub proof fn law_addvars_sub_const_keeps_solutions(
    rows: Seq<Seq<AbstractInterval>>,
    cs: Seq<(usize, Vec<usize>, i128)>,
    p: int,
    conc: Seq<Seq<int>>,
)
    requires
        0 < p <= 0x1_0000_0000,
        forall|k: int| 0 <= k < cs.len() ==> #[trigger] all_fit(rows, idx_avs(cs[k])),
        forall|k: int| 0 <= k < cs.len() ==> 0 <= (#[trigger] cs[k]).2 < p && cs[k].1@.len() <= 0x1_0000_0000,
        conc_in(conc, rows, p),
        sat_addvars(conc, cs, p),
    ensures
        conc_in(conc, rows_pass((rows, false), rows.len() as int, cs, step_addvars_fn()).0, p),
        !rows_pass((rows, false), rows.len() as int, cs, step_addvars_fn()).1,
{
    let step = step_addvars_fn();
    assert forall|r: int| 0 <= r < rows.len() implies #[trigger] steps_keep(conc, p, r, cs, step) by {
        assert forall|t: Seq<Seq<AbstractInterval>>, k: int| conc_in(conc, t, p) && 0 <= k < cs.len() implies {
            &&& conc_in(conc, (#[trigger] step(t, r, cs[k])).0, p)
            &&& !step(t, r, cs[k]).1
        } by {
            let c = cs[k];
            let vs = c.1@;
            let row = conc[r];
            let tr = t[r];
            assert(all_fit(rows, idx_avs(c)));
            assert(idx_avs(c)[0] == c.0);
            assert(c.0 < rows[r].len());
            assert forall|i: int| 0 <= i < vs.len() implies (#[trigger] vs[i]) < tr.len() && vs[i] < row.len() by {
                assert(idx_avs(c)[i + 1] == vs[i]);
                assert(vs[i] < rows[r].len());
            }
            assert(step(t, r, c) == step_addvars(t, r, c));
            let si = singles_in(tr, vs);
            let ns = others_in(tr, vs);
            if fires(tr[c.0 as int]) && ns.len() == 1 && si.len() >= 1 {
                assert(row[c.0 as int] == 1);
                lemma_partition_lens(tr, vs);
                assert forall|i: int| 0 <= i < vs.len() implies 0 <= row[(#[trigger] vs[i]) as int] by {}
                lemma_conc_sum_nonneg(row, vs);
                assert((row[c.0 as int] * (conc_sum(row, vs) - c.2)) % p == 0);
                assert(conc_sum(row, vs) < p);
                lemma_gated_eq(row[c.0 as int], conc_sum(row, vs), c.2 as int, p);
                lemma_conc_sum_split(row, tr, vs);
                lemma_singles_facts(tr, vs);
                assert forall|j: int| 0 <= j < tr.len() && j < row.len() implies 0 <= #[trigger] row[j] < p && tr[j].lo <= row[j] <= tr[j].hi by {}
                lemma_sum_cells_single(row, tr, si, p);
                let sv = conc_sum(row, si);
                let kk = ns[0];
                assert(ns.drop_last() =~= Seq::<usize>::empty());
                assert(ns.last() == kk);
                assert(conc_sum(row, ns.drop_last()) == 0);
                assert(conc_sum(row, ns) == conc_sum(row, ns.drop_last()) + row[ns.last() as int]);
                assert(conc_sum(row, ns) == row[kk as int]);
                assert(row[kk as int] == c.2 - sv);
                let target = single(c.2).spec_sub(sum_cells(tr, si));
                assert(target == single((c.2 - sv) as i128));
                let x = tr[kk as int].spec_intersect(target);
                assert(x is Some);
                let nt = step(t, r, c).0;
                assert(nt == t.update(r, tr.update(kk as int, x->0)));
                assert forall|q: int, j: int| 0 <= q < conc.len() && 0 <= j < conc[q].len() implies {
                    &&& 0 <= #[trigger] conc[q][j] < p
                    &&& nt[q][j].lo <= conc[q][j] <= nt[q][j].hi
                } by {
                    assert(t[q][j].lo <= conc[q][j] <= t[q][j].hi);
                }
                assert forall|q: int| 0 <= q < conc.len() implies (#[trigger] conc[q]).len() == nt[q].len() by {}
            }
        }
    }
    lemma_rows_pass_keeps(conc, p, (rows, false), rows.len() as int, cs, step);
}

/// The single-valued and the other columns are columns of `vs`, the first
/// single-valued.
proof fn lemma_singles_facts(t: Seq<AbstractInterval>, vs: Seq<usize>)
    ensures
        forall|i: int| 0 <= i < singles_in(t, vs).len() ==> t[(#[trigger] singles_in(t, vs)[i]) as int].lo == t[singles_in(t, vs)[i] as int].hi,
        forall|i: int| 0 <= i < singles_in(t, vs).len() ==> vs.contains(#[trigger] singles_in(t, vs)[i]),
        forall|i: int| 0 <= i < others_in(t, vs).len() ==> vs.contains(#[trigger] others_in(t, vs)[i]),
        singles_in(t, vs).len() <= vs.len(),
    decreases vs.len(),
{
    if vs.len() > 0 {
        let d = vs.drop_last();
        lemma_singles_facts(t, d);
        let x = vs.last();
        assert(vs[vs.len() - 1] == x);
        let si = singles_in(t, vs);
        let ot = others_in(t, vs);
        assert forall|i: int| 0 <= i < si.len() implies vs.contains(#[trigger] si[i]) by {
            if i < singles_in(t, d).len() {
                assert(si[i] == singles_in(t, d)[i]);
                let j = choose|j: int| 0 <= j < d.len() && d[j] == si[i];
                assert(vs[j] == d[j]);
            }
        }
        assert forall|i: int| 0 <= i < ot.len() implies vs.contains(#[trigger] ot[i]) by {
            if i < others_in(t, d).len() {
                assert(ot[i] == others_in(t, d)[i]);
                let j = choose|j: int| 0 <= j < d.len() && d[j] == ot[i];
                assert(vs[j] == d[j]);
            }
        }
        assert forall|i: int| 0 <= i < si.len() implies t[(#[trigger] si[i]) as int].lo == t[si[i] as int].hi by {
            if i < singles_in(t, d).len() {
                assert(si[i] == singles_in(t, d)[i]);
            }
        }
    }
}

proof fn lemma_no_others_all_single(t: Seq<AbstractInterval>, vs: Seq<usize>)
    requires
        others_in(t, vs).len() == 0,
    ensures
        forall|i: int| 0 <= i < vs.len() ==> t[(#[trigger] vs[i]) as int].lo == t[vs[i] as int].hi,
    decreases vs.len(),
{
    if vs.len() > 0 {
        let d = vs.drop_last();
        if others_in(t, d).len() > 0 {
            lemma_partition_lens(t, d);
        }
        lemma_no_others_all_single(t, d);
        assert forall|i: int| 0 <= i < vs.len() implies t[(#[trigger] vs[i]) as int].lo == t[vs[i] as int].hi by {
            if i < d.len() {
                assert(vs[i] == d[i]);
            }
        }
    }
}

/// The doubly gated sums `f1 * f2 * (curr[v1] + ... + curr[vn] - t) = 0`,
/// each `f` a selector or one minus it, hold on every row of the concrete
/// table, in the field of `p`, and each sum of the concrete values is below
/// `p`.
pub open spec fn sat_double_sel_avs(c: Seq<Seq<int>>, cs: Seq<(usize, bool, usize, bool, Vec<usize>, i128)>, p: int) -> bool {
    forall|r: int, k: int|
        0 <= r < c.len() && 0 <= k < cs.len() ==> {
            &&& (pol_factor(c[r][cs[k].0 as int], cs[k].1) * pol_factor(c[r][cs[k].2 as int], cs[k].3) * (conc_sum(
                c[r],
                (#[trigger] cs[k]).4@,
            ) - cs[k].5)) % p == 0
            &&& #[trigger] conc_sum(c[r], cs[k].4@) < p
        }
}

/// A pass of doubly gated sums (`refine_double_sel_addvars_sub_const`)
/// keeps every concrete table of field elements that lies in the table and
/// satisfies the constraints without its sums wrapping around the prime, and
/// then reports no contradiction.
pub proof fn law_double_sel_addvars_sub_const_keeps_solutions(
    rows: Seq<Seq<AbstractInterval>>,
    cs: Seq<(usize, bool, usize, bool, Vec<usize>, i128)>,
    p: int,
    conc: Seq<Seq<int>>,
)
    requires
        0 < p <= 0x1_0000_0000,
        forall|k: int| 0 <= k < cs.len() ==> #[trigger] all_fit(rows, idx_dsa(cs[k])),
        forall|k: int| 0 <= k < cs.len() ==> 0 <= (#[trigger] cs[k]).5 < p && cs[k].4@.len() <= 0x1_0000_0000,
        conc_in(conc, rows, p),
        sat_double_sel_avs(conc, cs, p),
    ensures
        conc_in(conc, rows_pass((rows, false), rows.len() as int, cs, step_double_sel_avs_fn()).0, p),
        !rows_pass((rows, false), rows.len() as int, cs, step_double_sel_avs_fn()).1,
{
    let step = step_double_sel_avs_fn();
    assert forall|r: int| 0 <= r < rows.len() implies #[trigger] steps_keep(conc, p, r, cs, step) by {
        assert forall|t: Seq<Seq<AbstractInterval>>, k: int| conc_in(conc, t, p) && 0 <= k < cs.len() implies {
            &&& conc_in(conc, (#[trigger] step(t, r, cs[k])).0, p)
            &&& !step(t, r, cs[k]).1
        } by {
            let c = cs[k];
            let vs = c.4@;
            let row = conc[r];
            let tr = t[r];
            assert(all_fit(rows, idx_dsa(c)));
            assert(idx_dsa(c)[0] == c.0 && idx_dsa(c)[1] == c.2);
            assert(c.0 < rows[r].len() && c.2 < rows[r].len());
            assert forall|i: int| 0 <= i < vs.len() implies (#[trigger] vs[i]) < tr.len() && vs[i] < row.len() by {
                assert(idx_dsa(c)[i + 2] == vs[i]);
                assert(vs[i] < rows[r].len());
            }
            assert(step(t, r, c) == step_double_sel_avs(t, r, c));
            let si = singles_in(tr, vs);
            let ns = others_in(tr, vs);
            if fires_pol(tr[c.0 as int], c.1) && fires_pol(tr[c.2 as int], c.3) {
                assert(pol_factor(row[c.0 as int], c.1) == 1);
                assert(pol_factor(row[c.2 as int], c.3) == 1);
                lemma_partition_lens(tr, vs);
                assert forall|i: int| 0 <= i < vs.len() implies 0 <= row[(#[trigger] vs[i]) as int] by {}
                lemma_conc_sum_nonneg(row, vs);
                assert((pol_factor(row[c.0 as int], c.1) * pol_factor(row[c.2 as int], c.3) * (conc_sum(row, vs) - c.5)) % p == 0);
                assert(conc_sum(row, vs) < p);
                lemma_gated_eq(1, conc_sum(row, vs), c.5 as int, p);
                assert forall|j: int| 0 <= j < tr.len() && j < row.len() implies 0 <= #[trigger] row[j] < p && tr[j].lo <= row[j] <= tr[j].hi by {}
                if ns.len() == 1 && si.len() > 0 {
                    lemma_conc_sum_split(row, tr, vs);
                    lemma_singles_facts(tr, vs);
                    lemma_sum_cells_single(row, tr, si, p);
                    let sv = conc_sum(row, si);
                    let kk = ns[0];
                    assert(ns.drop_last() =~= Seq::<usize>::empty());
                    assert(ns.last() == kk);
                    assert(conc_sum(row, ns.drop_last()) == 0);
                    assert(conc_sum(row, ns) == conc_sum(row, ns.drop_last()) + row[ns.last() as int]);
                    assert(row[kk as int] == c.5 - sv);
                    let target = single(c.5).spec_sub(sum_cells(tr, si));
                    assert(target == single((c.5 - sv) as i128));
                    let x = tr[kk as int].spec_intersect(target);
                    assert(x is Some);
                    let nt = step(t, r, c).0;
                    assert(nt == t.update(r, tr.update(kk as int, x->0)));
                    assert forall|q: int, j: int| 0 <= q < conc.len() && 0 <= j < conc[q].len() implies {
                        &&& 0 <= #[trigger] conc[q][j] < p
                        &&& nt[q][j].lo <= conc[q][j] <= nt[q][j].hi
                    } by {
                        assert(t[q][j].lo <= conc[q][j] <= t[q][j].hi);
                    }
                    assert forall|q: int| 0 <= q < conc.len() implies (#[trigger] conc[q]).len() == nt[q].len() by {}
                } else if ns.len() == 0 {
                    lemma_no_others_all_single(tr, vs);
                    lemma_sum_cells_single(row, tr, vs, p);
                    assert(sum_cells(tr, vs) == single(c.5));
                    assert(sum_cells(tr, vs).spec_intersect(single(c.5)) is Some);
                }
            }
        }
    }
    lemma_rows_pass_keeps(conc, p, (rows, false), rows.len() as int, cs, step);
}

/// Every cell of row `r` contains the concrete value at its column.
pub open spec fn row_holds(row: Seq<AbstractInterval>, vals: Seq<int>) -> bool {
    &&& vals.len() == row.len()
    &&& forall|j: int| 0 <= j < row.len() ==> (#[trigger] row[j]).contains(vals[j])
}

/// Narrowing limb cells to bytes that the concrete values at those cells
/// equal finds no contradiction and keeps every concrete value of the row.
proof fn lemma_narrow_bytes_keeps(rows: Seq<Seq<AbstractInterval>>, r: int, a: Seq<usize>, t: u32, k: int, vals: Seq<int>)
    requires
        0 <= r < rows.len(),
        0 <= k <= a.len(),
        forall|i: int| 0 <= i < a.len() ==> (#[trigger] a[i]) < rows[r].len(),
        row_holds(rows[r], vals),
        forall|i: int| 0 <= i < k ==> vals[(#[trigger] a[i]) as int] == crate::shrinker::byte_of(t, i as u32),
    ensures
        !narrow_bytes(rows, r, a, t, k).1,
        narrow_bytes(rows, r, a, t, k).0.len() == rows.len(),
        row_holds(narrow_bytes(rows, r, a, t, k).0[r], vals),
    decreases k,
{
    if k > 0 {
        lemma_narrow_bytes_keeps(rows, r, a, t, k - 1, vals);
        let prev = narrow_bytes(rows, r, a, t, k - 1);
        let j = a[k - 1] as int;
        let v = crate::shrinker::byte_of(t, (k - 1) as u32);
        assert(vals[j] == v);
        assert(prev.0[r][j].contains(vals[j]));
        let nx = narrow(prev.0, r, j, single(v));
        assert(!nx.1);
        assert forall|q: int| 0 <= q < nx.0[r].len() implies (#[trigger] nx.0[r][q]).contains(vals[q]) by {
            if q != j {
                assert(nx.0[r][q] == prev.0[r][q]);
            }
        }
    }
}

/// The four bytes of a 32-bit value are its limbs, least significant first.
proof fn lemma_bytes_of_value(t: u32, z0: u32, z1: u32, z2: u32, z3: u32)
    requires
        z0 < 256 && z1 < 256 && z2 < 256 && z3 < 256,
        t as int == z0 + 256 * z1 + 65536 * z2 + 16777216 * z3,
    ensures
        crate::shrinker::byte_of(t, 0) == z0,
        crate::shrinker::byte_of(t, 1) == z1,
        crate::shrinker::byte_of(t, 2) == z2,
        crate::shrinker::byte_of(t, 3) == z3,
{
    assert(((t >> 0u32) & 0xff) == z0 && ((t >> 8u32) & 0xff) == z1 && ((t >> 16u32) & 0xff) == z2 && ((t >> 24u32)
        & 0xff) == z3) by (bit_vector)
        requires
            z0 < 256 && z1 < 256 && z2 < 256 && z3 < 256,
            t == z0 + 256 * z1 + 65536 * z2 + 16777216 * z3,
    ;
}

/// A gated word sum step (`refine_selector_addu_constraints`) keeps every
/// concrete solution: for a concrete row held by row `r` whose limb values
/// of `a` spell `(b + c) mod 2^32`, for bytes `x` of the word `b` and `y` of
/// the word `c`, the step finds no contradiction and row `r` still holds it.
pub proof fn law_selector_addu_step_keeps_solutions(
    rows: Seq<Seq<AbstractInterval>>,
    r: int,
    c: SelectorAddUConstraint,
    p: u32,
    vals: Seq<int>,
    x: (int, int, int, int),
    y: (int, int, int, int),
)
    requires
        0 <= r < rows.len(),
        forall|i: int| 0 <= i < 4 ==> (#[trigger] c.a_var_indices@[i]) < rows[r].len(),
        row_holds(rows[r], vals),
        crate::word_laws::bytes_in_word(
            ZEBRASymbolicExpr::word_value(c.b_limb_exprs, crate::constraint::row_env(rows, r, None, p)),
            x,
        ),
        crate::word_laws::bytes_in_word(
            ZEBRASymbolicExpr::word_value(c.c_limb_exprs, crate::constraint::row_env(rows, r, None, p)),
            y,
        ),
        crate::word_laws::bytes_value(
            (
                vals[c.a_var_indices@[0] as int],
                vals[c.a_var_indices@[1] as int],
                vals[c.a_var_indices@[2] as int],
                vals[c.a_var_indices@[3] as int],
            ),
        ) == (crate::word_laws::bytes_value(x) + crate::word_laws::bytes_value(y)) % (crate::wordop::WORD_BOUND as int),
    ensures
        !crate::shrinker::step_addu(rows, r, c, p).1,
        row_holds(crate::shrinker::step_addu(rows, r, c, p).0[r], vals),
{
    reveal(crate::shrinker::step_addu);
    let env = crate::constraint::row_env(rows, r, None, p);
    let b = ZEBRASymbolicExpr::word_value(c.b_limb_exprs, env);
    let cw = ZEBRASymbolicExpr::word_value(c.c_limb_exprs, env);
    let res = crate::wordop::spec_word_addu(b, cw);
    let a = c.a_var_indices@;
    let sel = c.selector_expr.value_of(env);
    if sel.lo == sel.hi && sel.lo == 1 && crate::shrinker::word_singles(b) && crate::shrinker::word_singles(cw)
        && crate::shrinker::limbs_are_bytes(rows[r], a) && res.lo == res.hi {
        assert(b[0].lo == b[0].hi && b[1].lo == b[1].hi && b[2].lo == b[2].hi && b[3].lo == b[3].hi);
        assert(cw[0].lo == cw[0].hi && cw[1].lo == cw[1].hi && cw[2].lo == cw[2].hi && cw[3].lo == cw[3].hi);
        assert(crate::wordop::word_ok(b) && crate::wordop::word_ok(cw));
        crate::word_laws::law_word_addu_sound(b, cw, x, y);
        let z0 = vals[a[0] as int];
        let z1 = vals[a[1] as int];
        let z2 = vals[a[2] as int];
        let z3 = vals[a[3] as int];
        assert(rows[r][a[0] as int].contains(z0) && rows[r][a[1] as int].contains(z1));
        assert(rows[r][a[2] as int].contains(z2) && rows[r][a[3] as int].contains(z3));
        assert(0 <= z0 <= 255 && 0 <= z1 <= 255 && 0 <= z2 <= 255 && 0 <= z3 <= 255);
        let t = res.lo as u32;
        assert(t as int == z0 + 256 * z1 + 65536 * z2 + 16777216 * z3);
        lemma_bytes_of_value(t, z0 as u32, z1 as u32, z2 as u32, z3 as u32);
        assert forall|i: int| 0 <= i < 4 implies vals[(#[trigger] a[i]) as int] == crate::shrinker::byte_of(t, i as u32) by {
            if i == 0 {} else if i == 1 {} else if i == 2 {} else {}
        }
        lemma_narrow_bytes_keeps(rows, r, a, t, 4, vals);
    }
}

/// The 32-bit value of a word of single-valued limbs.
pub open spec fn single_word_value(w: crate::wordop::Word) -> int {
    w[0].lo + 256 * w[1].lo + 65536 * w[2].lo + 16777216 * w[3].lo
}

/// A gated word sum step whose selector is surely 1, whose words `b` and
/// `c` hold single values and whose limb cells hold bytes, and that finds no
/// contradiction, leaves the limb cells fixed at the bytes of
/// `(b + c) mod 2^32`, least significant first.
pub proof fn law_selector_addu_step_fixes_limbs(rows: Seq<Seq<AbstractInterval>>, r: int, c: SelectorAddUConstraint, p: u32)
    requires
        0 <= r < rows.len(),
        forall|i: int| 0 <= i < 4 ==> (#[trigger] c.a_var_indices@[i]) < rows[r].len(),
        crate::shrinker::ok_addu(rows, r, c, p),
    ensures
        ({
            let env = crate::constraint::row_env(rows, r, None, p);
            let sel = c.selector_expr.value_of(env);
            let b = ZEBRASymbolicExpr::word_value(c.b_limb_exprs, env);
            let cw = ZEBRASymbolicExpr::word_value(c.c_limb_exprs, env);
            let sum = (single_word_value(b) + single_word_value(cw)) % (crate::wordop::WORD_BOUND as int);
            let res = crate::shrinker::step_addu(rows, r, c, p);
            sel.lo == sel.hi && sel.lo == 1 && crate::shrinker::word_singles(b) && crate::shrinker::word_singles(cw)
                && crate::shrinker::limbs_are_bytes(rows[r], c.a_var_indices@) && !res.1 ==> forall|i: int|
                0 <= i < 4 ==> res.0[r][(#[trigger] c.a_var_indices@[i]) as int] == single(
                    crate::shrinker::byte_of(sum as u32, i as u32),
                )
        }),
{
    reveal(crate::shrinker::step_addu);
    reveal(crate::shrinker::ok_addu);
    let env = crate::constraint::row_env(rows, r, None, p);
    let b = ZEBRASymbolicExpr::word_value(c.b_limb_exprs, env);
    let cw = ZEBRASymbolicExpr::word_value(c.c_limb_exprs, env);
    let res = crate::wordop::spec_word_addu(b, cw);
    let sel = c.selector_expr.value_of(env);
    if sel.lo == sel.hi && sel.lo == 1 && crate::shrinker::word_singles(b) && crate::shrinker::word_singles(cw)
        && crate::shrinker::limbs_are_bytes(rows[r], c.a_var_indices@) {
        assert(crate::wordop::word_ok(b) && crate::wordop::word_ok(cw));
        assert(b[0].lo == b[0].hi && b[1].lo == b[1].hi && b[2].lo == b[2].hi && b[3].lo == b[3].hi);
        assert(cw[0].lo == cw[0].hi && cw[1].lo == cw[1].hi && cw[2].lo == cw[2].hi && cw[3].lo == cw[3].hi);
        vstd::arithmetic::div_mod::lemma_mod_bound(single_word_value(b) + single_word_value(cw), crate::wordop::WORD_BOUND as int);
        assert(res.lo == res.hi);
        lemma_narrow_bytes_fixes(rows, r, c.a_var_indices@, res.lo as u32, 4);
    }
}

} // verus!
