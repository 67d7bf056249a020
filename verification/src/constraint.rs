use vstd::prelude::*;

use crate::analysis::{gather_vars, row_vars_of};
use crate::interval::{AbstractInterval, MayBeFlag};
use crate::symbolic::{
    make_env, opt_slice_view, EvalEnv, ZEBRASymbolicEntry, ZEBRASymbolicExpr,
    ZEBRASymbolicVal,
};
use crate::trace::AbstractTrace;

verus! {

/// The environment of row `i` of a table: that row, the next one when there
/// is one, the public values, and the row's position.
pub open spec fn row_env(rows: Seq<Seq<AbstractInterval>>, i: int, public: Option<&[AbstractInterval]>, p: u32) -> EvalEnv {
    EvalEnv {
        curr: rows[i],
        next: if i + 1 < rows.len() {
            Some(rows[i + 1])
        } else {
            None
        },
        public: opt_slice_view(public),
        is_first_row: i == 0,
        is_transition: i < rows.len() - 1,
        is_last_row: i == rows.len() - 1,
        prime: p,
    }
}

/// The environment of the public constraints: the first row alone, at no
/// particular position.
pub open spec fn pv_env(rows: Seq<Seq<AbstractInterval>>, public: Option<&[AbstractInterval]>, p: u32) -> EvalEnv {
    EvalEnv {
        curr: rows[0],
        next: None,
        public: opt_slice_view(public),
        is_first_row: false,
        is_transition: false,
        is_last_row: false,
        prime: p,
    }
}

/// The zero test of a constraint on row `i`: exactly zero as an integer
/// (`strict`), or zero in the field.
#[verifier::opaque]
pub open spec fn base_flag(rows: Seq<Seq<AbstractInterval>>, i: int, c: ZEBRASymbolicExpr, public: Option<&[AbstractInterval]>, p: u32, strict: bool) -> MayBeFlag {
    let v = c.value_of(row_env(rows, i, public, p));
    if strict {
        v.spec_is_strict_zero()
    } else {
        v.spec_is_zero(p as int)
    }
}

/// The state of an evaluation: the answer so far, the count of undecided
/// evaluations, and the cells that the undecided constraints read.
pub type EvalState = (MayBeFlag, int, Set<(usize, usize)>);

/// One evaluation of constraint `c` on row `i` with answer `flag`: nothing
/// changes once the answer is `False`; `False` stops; `MayBe` counts one and
/// records the cells of `c` on that row.
pub open spec fn base_step(st: EvalState, flag: MayBeFlag, i: int, c: ZEBRASymbolicExpr) -> EvalState {
    if st.0 == MayBeFlag::False {
        st
    } else {
        match flag {
            MayBeFlag::True => st,
            MayBeFlag::False => (MayBeFlag::False, st.1, st.2),
            MayBeFlag::MayBe => (MayBeFlag::MayBe, st.1 + 1, st.2.union(row_vars_of(i as usize, c))),
        }
    }
}

/// The first `j` constraints evaluated on row `i`.
pub open spec fn base_row(rows: Seq<Seq<AbstractInterval>>, i: int, cs: Seq<ZEBRASymbolicExpr>, j: int, public: Option<&[AbstractInterval]>, p: u32, strict: bool, st: EvalState) -> EvalState
    decreases j,
{
    if j <= 0 {
        st
    } else {
        base_step(
            base_row(rows, i, cs, j - 1, public, p, strict, st),
            base_flag(rows, i, cs[j - 1], public, p, strict),
            i,
            cs[j - 1],
        )
    }
}

/// Every constraint evaluated on the first `n` rows, row by row.
pub open spec fn base_rows(rows: Seq<Seq<AbstractInterval>>, n: int, cs: Seq<ZEBRASymbolicExpr>, public: Option<&[AbstractInterval]>, p: u32, strict: bool, st: EvalState) -> EvalState
    decreases n,
{
    if n <= 0 {
        st
    } else {
        base_row(rows, n - 1, cs, cs.len() as int, public, p, strict, base_rows(rows, n - 1, cs, public, p, strict, st))
    }
}

/// Constraint `c` can be evaluated on row `i`.
pub open spec fn base_readable(rows: Seq<Seq<AbstractInterval>>, i: int, c: ZEBRASymbolicExpr, public: Option<&[AbstractInterval]>, p: u32, strict: bool) -> bool {
    c.evaluable(row_env(rows, i, public, p))
}

/// Each of the first `j` constraints that `base_row` evaluates on row `i`
/// (those before the answer is `False`) can be read there.
pub open spec fn base_row_ok(rows: Seq<Seq<AbstractInterval>>, i: int, cs: Seq<ZEBRASymbolicExpr>, j: int, public: Option<&[AbstractInterval]>, p: u32, strict: bool, st: EvalState) -> bool
    decreases j,
{
    if j <= 0 {
        true
    } else {
        &&& base_row_ok(rows, i, cs, j - 1, public, p, strict, st)
        &&& (base_row(rows, i, cs, j - 1, public, p, strict, st).0 == MayBeFlag::False
            || base_readable(rows, i, cs[j - 1], public, p, strict))
    }
}

/// Each evaluation that `base_rows` makes on the first `n` rows can be read.
pub open spec fn base_rows_ok(rows: Seq<Seq<AbstractInterval>>, n: int, cs: Seq<ZEBRASymbolicExpr>, public: Option<&[AbstractInterval]>, p: u32, strict: bool, st: EvalState) -> bool
    decreases n,
{
    if n <= 0 {
        true
    } else {
        &&& base_rows_ok(rows, n - 1, cs, public, p, strict, st)
        &&& base_row_ok(rows, n - 1, cs, cs.len() as int, public, p, strict, base_rows(rows, n - 1, cs, public, p, strict, st))
    }
}

proof fn lemma_base_row_ok_prefix(rows: Seq<Seq<AbstractInterval>>, i: int, cs: Seq<ZEBRASymbolicExpr>, j: int, k: int, public: Option<&[AbstractInterval]>, p: u32, strict: bool, st: EvalState)
    requires
        j <= k,
        base_row_ok(rows, i, cs, k, public, p, strict, st),
    ensures
        base_row_ok(rows, i, cs, j, public, p, strict, st),
    decreases k - j,
{
    if j < k {
        lemma_base_row_ok_prefix(rows, i, cs, j, k - 1, public, p, strict, st);
    }
}

proof fn lemma_base_rows_ok_prefix(rows: Seq<Seq<AbstractInterval>>, n: int, k: int, cs: Seq<ZEBRASymbolicExpr>, public: Option<&[AbstractInterval]>, p: u32, strict: bool, st: EvalState)
    requires
        n <= k,
        base_rows_ok(rows, k, cs, public, p, strict, st),
    ensures
        base_rows_ok(rows, n, cs, public, p, strict, st),
    decreases k - n,
{
    if n < k {
        lemma_base_rows_ok_prefix(rows, n, k - 1, cs, public, p, strict, st);
    }
}

/// The count of undecided evaluations never falls along a row.
proof fn lemma_base_row_mono(rows: Seq<Seq<AbstractInterval>>, i: int, cs: Seq<ZEBRASymbolicExpr>, j: int, k: int, public: Option<&[AbstractInterval]>, p: u32, strict: bool, st: EvalState)
    requires
        0 <= j <= k,
    ensures
        base_row(rows, i, cs, j, public, p, strict, st).1 <= base_row(rows, i, cs, k, public, p, strict, st).1,
    decreases k - j,
{
    if j < k {
        lemma_base_row_mono(rows, i, cs, j, k - 1, public, p, strict, st);
    }
}

/// The count of undecided evaluations never falls from row to row.
proof fn lemma_base_rows_mono(rows: Seq<Seq<AbstractInterval>>, n: int, k: int, cs: Seq<ZEBRASymbolicExpr>, public: Option<&[AbstractInterval]>, p: u32, strict: bool, st: EvalState)
    requires
        0 <= n <= k,
    ensures
        base_rows(rows, n, cs, public, p, strict, st).1 <= base_rows(rows, k, cs, public, p, strict, st).1,
    decreases k - n,
{
    if n < k {
        lemma_base_rows_mono(rows, n, k - 1, cs, public, p, strict, st);
        let prev = base_rows(rows, k - 1, cs, public, p, strict, st);
        lemma_base_row_mono(rows, k - 1, cs, 0, cs.len() as int, public, p, strict, prev);
    }
}

proof fn lemma_base_row_count(rows: Seq<Seq<AbstractInterval>>, i: int, cs: Seq<ZEBRASymbolicExpr>, j: int, public: Option<&[AbstractInterval]>, p: u32, strict: bool, st: EvalState)
    requires
        0 <= j,
    ensures
        st.1 <= base_row(rows, i, cs, j, public, p, strict, st).1 <= st.1 + j,
        st.0 == MayBeFlag::False ==> base_row(rows, i, cs, j, public, p, strict, st) == st,
    decreases j,
{
    if j > 0 {
        lemma_base_row_count(rows, i, cs, j - 1, public, p, strict, st);
    }
}

/// The zero test of one constraint on row `i` of the trace (see `base_flag`).
fn eval_flag(
    trace: &AbstractTrace,
    i: usize,
    constraints: &[ZEBRASymbolicExpr],
    j: usize,
    public_vals: Option<&[AbstractInterval]>,
    prime: u32,
    is_strict: bool,
) -> (r: MayBeFlag)
    requires
        prime > 0,
        i < trace.data@.len(),
        j < constraints@.len(),
        base_readable(trace.rows(), i as int, constraints@[j as int], public_vals, prime, is_strict),
    ensures
        r == base_flag(trace.rows(), i as int, constraints@[j as int], public_vals, prime, is_strict),
{
    reveal(base_flag);
    let tc = &constraints[j];
    let num_steps = trace.data.len();
    let ghost rows = trace.rows();
    let next: Option<&[AbstractInterval]> = if i + 1 < num_steps {
        Some(trace.data[i + 1].as_slice())
    } else {
        None
    };
    proof {
        assert(rows[i as int] == trace.data@[i as int]@);
        if i + 1 < num_steps {
            assert(rows[i as int + 1] == trace.data@[i as int + 1]@);
        }
        assert(make_env(trace.data@[i as int]@, next, public_vals, i == 0, i < num_steps - 1, i == num_steps - 1, prime)
            == row_env(rows, i as int, public_vals, prime));
    }
    let v = tc.eval(
        trace.data[i].as_slice(),
        next,
        public_vals,
        i == 0,
        i < num_steps - 1,
        i == num_steps - 1,
        prime,
    );
    if is_strict {
        v.is_strict_zero()
    } else {
        v.is_zero(prime)
    }
}

/// Evaluates the constraints on every row of the trace, row by row (see
/// `base_rows`): the answer is `False` at the first evaluation that is
/// surely non-zero, `True` when every evaluation is surely zero, `MayBe`
/// otherwise; each undecided evaluation adds one to `potential` and its
/// cells on that row to `memo`.
pub fn eval_base_constraints(
    trace: &AbstractTrace,
    public_vals: Option<&[AbstractInterval]>,
    constraints: &[ZEBRASymbolicExpr],
    prime: u32,
    is_strict: bool,
    potential: &mut i32,
    memo: &mut Vec<(usize, usize)>,
) -> (r: MayBeFlag)
    requires
        prime > 0,
        base_rows_ok(
            trace.rows(),
            trace.data@.len() as int,
            constraints@,
            public_vals,
            prime,
            is_strict,
            (MayBeFlag::True, *old(potential) as int, old(memo)@.to_set()),
        ),
        base_rows(
            trace.rows(),
            trace.data@.len() as int,
            constraints@,
            public_vals,
            prime,
            is_strict,
            (MayBeFlag::True, *old(potential) as int, old(memo)@.to_set()),
        ).1 <= i32::MAX,
        old(memo)@.no_duplicates(),
    ensures
        ({
            let st = base_rows(
                trace.rows(),
                trace.data@.len() as int,
                constraints@,
                public_vals,
                prime,
                is_strict,
                (MayBeFlag::True, *old(potential) as int, old(memo)@.to_set()),
            );
            &&& r == st.0
            &&& *final(potential) == st.1
            &&& final(memo)@.to_set() == st.2
        }),
        final(memo)@.no_duplicates(),
{
    let num_steps = trace.data.len();
    let m = constraints.len();
    let ghost rows = trace.rows();
    let ghost st0: EvalState = (MayBeFlag::True, *potential as int, memo@.to_set());
    let ghost fin = base_rows(rows, num_steps as int, constraints@, public_vals, prime, is_strict, st0);
    let mut is_all_true = true;
    let mut i: usize = 0;
    while i < num_steps
        invariant
            prime > 0,
            num_steps == trace.data@.len(),
            m == constraints@.len(),
            rows == trace.rows(),
            st0 == (MayBeFlag::True, *old(potential) as int, old(memo)@.to_set()),
            fin == base_rows(rows, num_steps as int, constraints@, public_vals, prime, is_strict, st0),
            base_rows_ok(rows, num_steps as int, constraints@, public_vals, prime, is_strict, st0),
            fin.1 <= i32::MAX,
            i <= num_steps,
            memo@.no_duplicates(),
            base_rows(rows, i as int, constraints@, public_vals, prime, is_strict, st0) == (
                if is_all_true {
                    MayBeFlag::True
                } else {
                    MayBeFlag::MayBe
                },
                *potential as int,
                memo@.to_set(),
            ),
        decreases num_steps - i,
    {
        let ghost st_row = base_rows(rows, i as int, constraints@, public_vals, prime, is_strict, st0);
        proof {
            lemma_base_rows_ok_prefix(rows, i as int + 1, num_steps as int, constraints@, public_vals, prime, is_strict, st0);
            lemma_base_rows_mono(rows, i as int + 1, num_steps as int, constraints@, public_vals, prime, is_strict, st0);
        }
        let mut j: usize = 0;
        while j < m
            invariant
                prime > 0,
                num_steps == trace.data@.len(),
                m == constraints@.len(),
                rows == trace.rows(),
                i < num_steps,
                j <= m,
                st0 == (MayBeFlag::True, *old(potential) as int, old(memo)@.to_set()),
                fin == base_rows(rows, num_steps as int, constraints@, public_vals, prime, is_strict, st0),
                fin.1 <= i32::MAX,
                st_row == base_rows(rows, i as int, constraints@, public_vals, prime, is_strict, st0),
                base_row_ok(rows, i as int, constraints@, m as int, public_vals, prime, is_strict, st_row),
                base_row(rows, i as int, constraints@, m as int, public_vals, prime, is_strict, st_row).1 <= fin.1,
                memo@.no_duplicates(),
                base_row(rows, i as int, constraints@, j as int, public_vals, prime, is_strict, st_row) == (
                    if is_all_true {
                        MayBeFlag::True
                    } else {
                        MayBeFlag::MayBe
                    },
                    *potential as int,
                    memo@.to_set(),
                ),
            decreases m - j,
        {
            proof {
                lemma_base_row_ok_prefix(rows, i as int, constraints@, j as int + 1, m as int, public_vals, prime, is_strict, st_row);
                lemma_base_row_mono(rows, i as int, constraints@, j as int + 1, m as int, public_vals, prime, is_strict, st_row);
            }
            let flag = eval_flag(trace, i, constraints, j, public_vals, prime, is_strict);
            match flag {
                MayBeFlag::True => {},
                MayBeFlag::False => {
                    proof {
                        let stj = base_row(rows, i as int, constraints@, j as int + 1, public_vals, prime, is_strict, st_row);
                        assert(stj.0 == MayBeFlag::False);
                        lemma_false_stays_row(rows, i as int, constraints@, j as int + 1, m as int, public_vals, prime, is_strict, st_row);
                        assert(base_rows(rows, i as int + 1, constraints@, public_vals, prime, is_strict, st0)
                            == base_row(rows, i as int, constraints@, m as int, public_vals, prime, is_strict, st_row));
                        lemma_false_stays_rows(rows, i as int + 1, num_steps as int, constraints@, public_vals, prime, is_strict, st0);
                    }
                    return MayBeFlag::False;
                },
                MayBeFlag::MayBe => {
                    gather_vars(i, &constraints[j], memo);
                    is_all_true = false;
                    *potential += 1;
                },
            }
            j += 1;
        }
        i += 1;
    }
    if is_all_true {
        MayBeFlag::True
    } else {
        MayBeFlag::MayBe
    }
}

proof fn lemma_false_stays_row(rows: Seq<Seq<AbstractInterval>>, i: int, cs: Seq<ZEBRASymbolicExpr>, j: int, k: int, public: Option<&[AbstractInterval]>, p: u32, strict: bool, st: EvalState)
    requires
        0 <= j <= k,
        base_row(rows, i, cs, j, public, p, strict, st).0 == MayBeFlag::False,
    ensures
        base_row(rows, i, cs, k, public, p, strict, st) == base_row(rows, i, cs, j, public, p, strict, st),
    decreases k - j,
{
    if k > j {
        lemma_false_stays_row(rows, i, cs, j, k - 1, public, p, strict, st);
    }
}

proof fn lemma_false_stays_rows(rows: Seq<Seq<AbstractInterval>>, n: int, k: int, cs: Seq<ZEBRASymbolicExpr>, public: Option<&[AbstractInterval]>, p: u32, strict: bool, st: EvalState)
    requires
        0 <= n <= k,
        base_rows(rows, n, cs, public, p, strict, st).0 == MayBeFlag::False,
    ensures
        base_rows(rows, k, cs, public, p, strict, st) == base_rows(rows, n, cs, public, p, strict, st),
    decreases k - n,
{
    if k > n {
        lemma_false_stays_rows(rows, n, k - 1, cs, public, p, strict, st);
        let prev = base_rows(rows, k - 1, cs, public, p, strict, st);
        lemma_base_row_count(rows, k - 1, cs, cs.len() as int, public, p, strict, prev);
    }
}

/// The constraints of a table, by kind.
#[derive(Clone)]
pub struct ZEBRAConstraints {
    pub air_constraints: Vec<ZEBRASymbolicExpr>,
    pub lookup_constraints: Vec<ZEBRASymbolicExpr>,
    pub pv_pos_constraints: Vec<ZEBRASymbolicExpr>,
    pub pv_neg_constraints: Vec<ZEBRASymbolicExpr>,
    pub blocking_constraints: Vec<(usize, ZEBRASymbolicExpr)>,
}

impl ZEBRAConstraints {
    /// The AIR and lookup constraints, with no public and no blocking constraint.
    pub fn new(air_constraints: Vec<ZEBRASymbolicExpr>, lookup_constraints: Vec<ZEBRASymbolicExpr>) -> (r: Self)
        ensures
            r.air_constraints@ == air_constraints@,
            r.lookup_constraints@ == lookup_constraints@,
            r.pv_pos_constraints@.len() == 0,
            r.pv_neg_constraints@.len() == 0,
            r.blocking_constraints@.len() == 0,
    {
        ZEBRAConstraints {
            air_constraints,
            lookup_constraints,
            pv_pos_constraints: Vec::new(),
            pv_neg_constraints: Vec::new(),
            blocking_constraints: Vec::new(),
        }
    }
}

/// The constraint `curr[j] - v` that excludes the value `v` of column `j`.
pub open spec fn blocking_expr(j: usize, v: AbstractInterval) -> ZEBRASymbolicExpr {
    ZEBRASymbolicExpr::Sub(
        Box::new(ZEBRASymbolicExpr::Variable(ZEBRASymbolicVal { entry: ZEBRASymbolicEntry::Main { is_curr: true }, index: j })),
        Box::new(ZEBRASymbolicExpr::Constant(v)),
    )
}

/// Adds, for each output column `j`, the blocking constraint of row `i`
/// that excludes the cell `base[i][j]`.
pub fn add_blocking_constraint(
    output_columns: &[usize],
    constraints: &mut ZEBRAConstraints,
    base_abs_main_trace_data: &Vec<Vec<AbstractInterval>>,
    i: usize,
)
    requires
        i < base_abs_main_trace_data@.len(),
        forall|k: int| 0 <= k < output_columns@.len() ==> (#[trigger] output_columns@[k]) < base_abs_main_trace_data@[i as int]@.len(),
    ensures
        final(constraints).blocking_constraints@ == old(constraints).blocking_constraints@ + Seq::new(
            output_columns@.len(),
            |k: int| (i, blocking_expr(output_columns@[k], base_abs_main_trace_data@[i as int]@[output_columns@[k] as int])),
        ),
        final(constraints).air_constraints@ == old(constraints).air_constraints@,
        final(constraints).lookup_constraints@ == old(constraints).lookup_constraints@,
        final(constraints).pv_pos_constraints@ == old(constraints).pv_pos_constraints@,
        final(constraints).pv_neg_constraints@ == old(constraints).pv_neg_constraints@,
{
    let ghost added = Seq::new(
        output_columns@.len(),
        |k: int| (i, blocking_expr(output_columns@[k], base_abs_main_trace_data@[i as int]@[output_columns@[k] as int])),
    );
    let mut k: usize = 0;
    while k < output_columns.len()
        invariant
            i < base_abs_main_trace_data@.len(),
            forall|m: int| 0 <= m < output_columns@.len() ==> (#[trigger] output_columns@[m]) < base_abs_main_trace_data@[i as int]@.len(),
            k <= output_columns@.len(),
            added == Seq::new(
                output_columns@.len(),
                |k: int| (i, blocking_expr(output_columns@[k], base_abs_main_trace_data@[i as int]@[output_columns@[k] as int])),
            ),
            constraints.blocking_constraints@ == old(constraints).blocking_constraints@ + added.take(k as int),
            constraints.air_constraints@ == old(constraints).air_constraints@,
            constraints.lookup_constraints@ == old(constraints).lookup_constraints@,
            constraints.pv_pos_constraints@ == old(constraints).pv_pos_constraints@,
            constraints.pv_neg_constraints@ == old(constraints).pv_neg_constraints@,
        decreases output_columns.len() - k,
    {
        let j = output_columns[k];
        let v = base_abs_main_trace_data[i][j];
        constraints.blocking_constraints.push(
            (
                i,
                ZEBRASymbolicExpr::Sub(
                    Box::new(
                        ZEBRASymbolicExpr::Variable(
                            ZEBRASymbolicVal { entry: ZEBRASymbolicEntry::Main { is_curr: true }, index: j },
                        ),
                    ),
                    Box::new(ZEBRASymbolicExpr::Constant(v)),
                ),
            ),
        );
        proof {
            assert(added.take(k as int + 1) =~= added.take(k as int).push(added[k as int]));
        }
        k += 1;
    }
    proof {
        assert(added.take(output_columns@.len() as int) =~= added);
    }
}

/// The zero test of a blocking constraint `(i, c)` on row `i`.
#[verifier::opaque]
pub open spec fn blocking_flag(rows: Seq<Seq<AbstractInterval>>, b: (usize, ZEBRASymbolicExpr), public: Option<&[AbstractInterval]>, p: u32) -> MayBeFlag {
    b.1.value_of(row_env(rows, b.0 as int, public, p)).spec_is_zero(p as int)
}

/// Each blocking constraint names a row of the table and can be evaluated
/// there.
#[verifier::opaque]
pub open spec fn blocking_ok(rows: Seq<Seq<AbstractInterval>>, bs: Seq<(usize, ZEBRASymbolicExpr)>, public: Option<&[AbstractInterval]>, p: u32) -> bool {
    forall|k: int|
        0 <= k < bs.len() ==> {
            &&& (#[trigger] bs[k]).0 < rows.len()
            &&& bs[k].1.evaluable(row_env(rows, bs[k].0 as int, public, p))
        }
}

/// The zero test (`pos`) or non-zero test of a public constraint.
#[verifier::opaque]
pub open spec fn pv_flag(rows: Seq<Seq<AbstractInterval>>, c: ZEBRASymbolicExpr, public: Option<&[AbstractInterval]>, p: u32, pos: bool) -> MayBeFlag {
    let v = c.value_of(pv_env(rows, public, p));
    if pos {
        v.spec_is_zero(p as int)
    } else {
        v.spec_is_non_zero(p as int)
    }
}

/// The public constraint `c` can be evaluated on the first row.
pub open spec fn pv_readable(rows: Seq<Seq<AbstractInterval>>, c: ZEBRASymbolicExpr, public: Option<&[AbstractInterval]>, p: u32) -> bool {
    &&& rows.len() > 0
    &&& c.evaluable(pv_env(rows, public, p))
}

/// The state of the public checks: stopped on a failure, all decided so far,
/// and the count of undecided evaluations.
pub type PvState = (bool, bool, int);

pub open spec fn pv_step(st: PvState, flag: MayBeFlag) -> PvState {
    if st.0 {
        st
    } else {
        match flag {
            MayBeFlag::True => st,
            MayBeFlag::False => (true, st.1, st.2),
            MayBeFlag::MayBe => (false, false, st.2 + 1),
        }
    }
}

/// The first `k` public constraints checked in order.
pub open spec fn pv_run(rows: Seq<Seq<AbstractInterval>>, cs: Seq<ZEBRASymbolicExpr>, k: int, public: Option<&[AbstractInterval]>, p: u32, pos: bool, st: PvState) -> PvState
    decreases k,
{
    if k <= 0 {
        st
    } else {
        pv_step(pv_run(rows, cs, k - 1, public, p, pos, st), pv_flag(rows, cs[k - 1], public, p, pos))
    }
}

/// Each of the first `k` public constraints that `pv_run` checks (those
/// before a failure) can be read.
pub open spec fn pv_run_ok(rows: Seq<Seq<AbstractInterval>>, cs: Seq<ZEBRASymbolicExpr>, k: int, public: Option<&[AbstractInterval]>, p: u32, pos: bool, st: PvState) -> bool
    decreases k,
{
    if k <= 0 {
        true
    } else {
        &&& pv_run_ok(rows, cs, k - 1, public, p, pos, st)
        &&& (pv_run(rows, cs, k - 1, public, p, pos, st).0 || pv_readable(rows, cs[k - 1], public, p))
    }
}

proof fn lemma_pv_run_ok_prefix(rows: Seq<Seq<AbstractInterval>>, cs: Seq<ZEBRASymbolicExpr>, j: int, k: int, public: Option<&[AbstractInterval]>, p: u32, pos: bool, st: PvState)
    requires
        j <= k,
        pv_run_ok(rows, cs, k, public, p, pos, st),
    ensures
        pv_run_ok(rows, cs, j, public, p, pos, st),
    decreases k - j,
{
    if j < k {
        lemma_pv_run_ok_prefix(rows, cs, j, k - 1, public, p, pos, st);
    }
}

proof fn lemma_pv_run_mono(rows: Seq<Seq<AbstractInterval>>, cs: Seq<ZEBRASymbolicExpr>, j: int, k: int, public: Option<&[AbstractInterval]>, p: u32, pos: bool, st: PvState)
    requires
        0 <= j <= k,
    ensures
        pv_run(rows, cs, j, public, p, pos, st).2 <= pv_run(rows, cs, k, public, p, pos, st).2,
    decreases k - j,
{
    if j < k {
        lemma_pv_run_mono(rows, cs, j, k - 1, public, p, pos, st);
    }
}

/// The blocking constraints do not all surely hold, so the other checks run.
pub open spec fn blocking_passes(rows: Seq<Seq<AbstractInterval>>, public: Option<&[AbstractInterval]>, c: ZEBRAConstraints, p: u32) -> bool {
    let bs = c.blocking_constraints@;
    !(bs.len() > 0 && forall|k: int| 0 <= k < bs.len() ==> blocking_flag(rows, #[trigger] bs[k], public, p) == MayBeFlag::True)
}

/// Each check that `spec_eval_constraints` makes after the blocking
/// constraints can be read, and each count of undecided evaluations it
/// reaches fits in `i32`.
pub open spec fn eval_reads_ok(rows: Seq<Seq<AbstractInterval>>, public: Option<&[AbstractInterval]>, c: ZEBRAConstraints, p: u32) -> bool {
    let n = rows.len() as int;
    let st0: EvalState = (MayBeFlag::True, 0, Set::empty());
    let air = base_rows(rows, n, c.air_constraints@, public, p, false, st0);
    let lk_st: EvalState = (MayBeFlag::True, air.1, air.2);
    let lk = base_rows(rows, n, c.lookup_constraints@, public, p, true, lk_st);
    let all = air.0 == MayBeFlag::True && lk.0 == MayBeFlag::True;
    let pos = c.pv_pos_constraints@;
    let neg = c.pv_neg_constraints@;
    let pp_st: PvState = (false, all, lk.1);
    let pp = pv_run(rows, pos, pos.len() as int, public, p, true, pp_st);
    let pn = pv_run(rows, neg, neg.len() as int, public, p, false, pp);
    blocking_passes(rows, public, c, p) ==> {
        &&& base_rows_ok(rows, n, c.air_constraints@, public, p, false, st0)
        &&& air.1 <= i32::MAX
        &&& air.0 != MayBeFlag::False ==> {
            &&& base_rows_ok(rows, n, c.lookup_constraints@, public, p, true, lk_st)
            &&& lk.1 <= i32::MAX
            &&& lk.0 != MayBeFlag::False ==> {
                &&& pv_run_ok(rows, pos, pos.len() as int, public, p, true, pp_st)
                &&& pp.2 <= i32::MAX
                &&& !pp.0 ==> pv_run_ok(rows, neg, neg.len() as int, public, p, false, pp) && pn.2 <= i32::MAX
            }
        }
    }
}

/// The answer, the count of undecided evaluations and the cells of the
/// undecided constraints, when all the constraints are checked on the table:
/// `False` when there are blocking constraints and each is surely zero on its
/// row; then the AIR constraints in the field and the lookup constraints as
/// integers on every row, and the public constraints on the first row, in
/// that order, `False` at the first surely failed check; `True` when every
/// check surely holds, with count 0; `MayBe` otherwise.
pub open spec fn spec_eval_constraints(rows: Seq<Seq<AbstractInterval>>, public: Option<&[AbstractInterval]>, c: ZEBRAConstraints, p: u32) -> EvalState {
    let bs = c.blocking_constraints@;
    let n = rows.len() as int;
    if bs.len() > 0 && forall|k: int| 0 <= k < bs.len() ==> blocking_flag(rows, #[trigger] bs[k], public, p) == MayBeFlag::True {
        (MayBeFlag::False, 0, Set::empty())
    } else {
        let air = base_rows(rows, n, c.air_constraints@, public, p, false, (MayBeFlag::True, 0, Set::empty()));
        if air.0 == MayBeFlag::False {
            (MayBeFlag::False, 0, air.2)
        } else {
            let lk = base_rows(rows, n, c.lookup_constraints@, public, p, true, (MayBeFlag::True, air.1, air.2));
            if lk.0 == MayBeFlag::False {
                (MayBeFlag::False, 0, lk.2)
            } else {
                let all = air.0 == MayBeFlag::True && lk.0 == MayBeFlag::True;
                let pp = pv_run(rows, c.pv_pos_constraints@, c.pv_pos_constraints@.len() as int, public, p, true, (false, all, lk.1));
                let pn = pv_run(rows, c.pv_neg_constraints@, c.pv_neg_constraints@.len() as int, public, p, false, (pp.0, pp.1, pp.2));
                if pn.0 {
                    (MayBeFlag::False, 0, lk.2)
                } else if pn.1 {
                    (MayBeFlag::True, 0, lk.2)
                } else {
                    (MayBeFlag::MayBe, pn.2, lk.2)
                }
            }
        }
    }
}

fn eval_blocking(trace: &AbstractTrace, constraints: &ZEBRAConstraints, k: usize, public_vals: Option<&[AbstractInterval]>, prime: u32) -> (r: MayBeFlag)
    requires
        prime > 0,
        k < constraints.blocking_constraints@.len(),
        blocking_ok(trace.rows(), constraints.blocking_constraints@, public_vals, prime),
    ensures
        r == blocking_flag(trace.rows(), constraints.blocking_constraints@[k as int], public_vals, prime),
{
    reveal(blocking_ok);
    reveal(blocking_flag);
    let i = constraints.blocking_constraints[k].0;
    let bc = &constraints.blocking_constraints[k].1;
    let num_steps = trace.data.len();
    let ghost rows = trace.rows();
    let next: Option<&[AbstractInterval]> = if i + 1 < num_steps {
        Some(trace.data[i + 1].as_slice())
    } else {
        None
    };
    proof {
        assert(rows[i as int] == trace.data@[i as int]@);
        if i + 1 < num_steps {
            assert(rows[i as int + 1] == trace.data@[i as int + 1]@);
        }
        assert(make_env(trace.data@[i as int]@, next, public_vals, i == 0, i < num_steps - 1, i == num_steps - 1, prime)
            == row_env(rows, i as int, public_vals, prime));
    }
    let v = bc.eval(trace.data[i].as_slice(), next, public_vals, i == 0, i < num_steps - 1, i == num_steps - 1, prime);
    v.is_zero(prime)
}

fn eval_pv(trace: &AbstractTrace, cs: &Vec<ZEBRASymbolicExpr>, k: usize, public_vals: Option<&[AbstractInterval]>, prime: u32, pos: bool) -> (r: MayBeFlag)
    requires
        prime > 0,
        k < cs@.len(),
        pv_readable(trace.rows(), cs@[k as int], public_vals, prime),
    ensures
        r == pv_flag(trace.rows(), cs@[k as int], public_vals, prime, pos),
{
    reveal(pv_flag);
    let ghost rows = trace.rows();
    proof {
        assert(rows[0] == trace.data@[0]@);
        assert(make_env(trace.data@[0]@, None, public_vals, false, false, false, prime) == pv_env(rows, public_vals, prime));
    }
    let v = cs[k].eval(trace.data[0].as_slice(), None, public_vals, false, false, false, prime);
    if pos {
        v.is_zero(prime)
    } else {
        v.is_non_zero(prime)
    }
}

proof fn lemma_pv_run_count(rows: Seq<Seq<AbstractInterval>>, cs: Seq<ZEBRASymbolicExpr>, k: int, public: Option<&[AbstractInterval]>, p: u32, pos: bool, st: PvState)
    requires
        0 <= k,
    ensures
        st.2 <= pv_run(rows, cs, k, public, p, pos, st).2 <= st.2 + k,
        st.0 ==> pv_run(rows, cs, k, public, p, pos, st) == st,
        !st.1 ==> !pv_run(rows, cs, k, public, p, pos, st).1,
    decreases k,
{
    if k > 0 {
        lemma_pv_run_count(rows, cs, k - 1, public, p, pos, st);
    }
}

proof fn lemma_pv_stays(rows: Seq<Seq<AbstractInterval>>, cs: Seq<ZEBRASymbolicExpr>, j: int, k: int, public: Option<&[AbstractInterval]>, p: u32, pos: bool, st: PvState)
    requires
        0 <= j <= k,
        pv_run(rows, cs, j, public, p, pos, st).0,
    ensures
        pv_run(rows, cs, k, public, p, pos, st) == pv_run(rows, cs, j, public, p, pos, st),
    decreases k - j,
{
    if k > j {
        lemma_pv_stays(rows, cs, j, k - 1, public, p, pos, st);
    }
}

/// Runs the public checks of `cs` from state `st`; stops at the first
/// failed check.
fn run_pv(trace: &AbstractTrace, cs: &Vec<ZEBRASymbolicExpr>, public_vals: Option<&[AbstractInterval]>, prime: u32, pos: bool, all_true: bool, potential: i32) -> (r: (bool, bool, i32))
    requires
        prime > 0,
        pv_run_ok(trace.rows(), cs@, cs@.len() as int, public_vals, prime, pos, (false, all_true, potential as int)),
        pv_run(trace.rows(), cs@, cs@.len() as int, public_vals, prime, pos, (false, all_true, potential as int)).2 <= i32::MAX,
    ensures
        (r.0, r.1, r.2 as int) == pv_run(trace.rows(), cs@, cs@.len() as int, public_vals, prime, pos, (false, all_true, potential as int)),
{
    let ghost rows = trace.rows();
    let ghost st0: PvState = (false, all_true, potential as int);
    let ghost fin = pv_run(rows, cs@, cs@.len() as int, public_vals, prime, pos, st0);
    let mut all = all_true;
    let mut pot = potential;
    let mut k: usize = 0;
    while k < cs.len()
        invariant
            prime > 0,
            rows == trace.rows(),
            st0 == (false, all_true, potential as int),
            fin == pv_run(rows, cs@, cs@.len() as int, public_vals, prime, pos, st0),
            pv_run_ok(rows, cs@, cs@.len() as int, public_vals, prime, pos, st0),
            fin.2 <= i32::MAX,
            k <= cs@.len(),
            pv_run(rows, cs@, k as int, public_vals, prime, pos, st0) == (false, all, pot as int),
        decreases cs.len() - k,
    {
        proof {
            lemma_pv_run_ok_prefix(rows, cs@, k as int + 1, cs@.len() as int, public_vals, prime, pos, st0);
            lemma_pv_run_mono(rows, cs@, k as int + 1, cs@.len() as int, public_vals, prime, pos, st0);
        }
        let flag = eval_pv(trace, cs, k, public_vals, prime, pos);
        match flag {
            MayBeFlag::True => {},
            MayBeFlag::False => {
                proof {
                    lemma_pv_stays(rows, cs@, k as int + 1, cs@.len() as int, public_vals, prime, pos, st0);
                }
                return (true, all, pot);
            },
            MayBeFlag::MayBe => {
                all = false;
                pot = pot + 1;
            },
        }
        k += 1;
    }
    (false, all, pot)
}

/// Checks all the constraints on the trace (see `spec_eval_constraints`):
/// returns the answer, the count of undecided evaluations, and the cells
/// that the undecided constraints read, each once.
pub fn eval_constraints(
    trace: &AbstractTrace,
    public_vals: Option<&[AbstractInterval]>,
    constraints: &ZEBRAConstraints,
    prime: u32,
) -> (r: (MayBeFlag, i32, Vec<(usize, usize)>))
    requires
        prime > 0,
        blocking_ok(trace.rows(), constraints.blocking_constraints@, public_vals, prime),
        eval_reads_ok(trace.rows(), public_vals, *constraints, prime),
    ensures
        ({
            let s = spec_eval_constraints(trace.rows(), public_vals, *constraints, prime);
            &&& r.0 == s.0
            &&& r.1 == s.1
            &&& r.2@.to_set() == s.2
            &&& r.2@.no_duplicates()
        }),
{
    let ghost rows = trace.rows();
    let mut potential: i32 = 0;
    let mut memo: Vec<(usize, usize)> = Vec::new();
    proof {
        assert(memo@.to_set() =~= Set::<(usize, usize)>::empty());
    }
    let nb = constraints.blocking_constraints.len();
    let mut blocking_is_all = true;
    let mut k: usize = 0;
    while k < nb
        invariant
            prime > 0,
            rows == trace.rows(),
            nb == constraints.blocking_constraints@.len(),
            blocking_ok(rows, constraints.blocking_constraints@, public_vals, prime),
            k <= nb,
            blocking_is_all == forall|m: int| 0 <= m < k ==> blocking_flag(rows, #[trigger] constraints.blocking_constraints@[m], public_vals, prime) == MayBeFlag::True,
        decreases nb - k,
    {
        let flag = eval_blocking(trace, constraints, k, public_vals, prime);
        if flag != MayBeFlag::True {
            blocking_is_all = false;
        }
        k += 1;
    }
    if nb > 0 && blocking_is_all {
        return (MayBeFlag::False, 0, memo);
    }
    let n = trace.data.len();
    assert(blocking_passes(rows, public_vals, *constraints, prime));
    let air_flag = eval_base_constraints(trace, public_vals, constraints.air_constraints.as_slice(), prime, false, &mut potential, &mut memo);
    let ghost air = base_rows(rows, n as int, constraints.air_constraints@, public_vals, prime, false, (MayBeFlag::True, 0, Set::empty()));
    if air_flag == MayBeFlag::False {
        return (MayBeFlag::False, 0, memo);
    }
    let lookup_flag = eval_base_constraints(trace, public_vals, constraints.lookup_constraints.as_slice(), prime, true, &mut potential, &mut memo);
    if lookup_flag == MayBeFlag::False {
        return (MayBeFlag::False, 0, memo);
    }
    let all = air_flag == MayBeFlag::True && lookup_flag == MayBeFlag::True;
    let (stop1, all1, pot1) = run_pv(trace, &constraints.pv_pos_constraints, public_vals, prime, true, all, potential);
    if stop1 {
        proof {
            lemma_pv_run_count(rows, constraints.pv_neg_constraints@, constraints.pv_neg_constraints@.len() as int, public_vals, prime, false, (stop1, all1, pot1 as int));
        }
        return (MayBeFlag::False, 0, memo);
    }
    let (stop2, all2, pot2) = run_pv(trace, &constraints.pv_neg_constraints, public_vals, prime, false, all1, pot1);
    if stop2 {
        (MayBeFlag::False, 0, memo)
    } else if all2 {
        (MayBeFlag::True, 0, memo)
    } else {
        (MayBeFlag::MayBe, pot2, memo)
    }
}

// ----------------------------------------------------------------------
// laws of the evaluation outcomes
// ----------------------------------------------------------------------

/// Every test of the first `j` constraints on row `i` answers `True`.
pub open spec fn row_all_true(rows: Seq<Seq<AbstractInterval>>, i: int, cs: Seq<ZEBRASymbolicExpr>, j: int, public: Option<&[AbstractInterval]>, p: u32, strict: bool) -> bool {
    forall|k: int| 0 <= k < j ==> #[trigger] base_flag(rows, i, cs[k], public, p, strict) == MayBeFlag::True
}

/// Some test of the first `j` constraints on row `i` answers `False`.
pub open spec fn row_some_false(rows: Seq<Seq<AbstractInterval>>, i: int, cs: Seq<ZEBRASymbolicExpr>, j: int, public: Option<&[AbstractInterval]>, p: u32, strict: bool) -> bool {
    exists|k: int| 0 <= k < j && #[trigger] base_flag(rows, i, cs[k], public, p, strict) == MayBeFlag::False
}

/// Every test of every constraint on the first `n` rows answers `True`.
pub open spec fn all_tests_true(rows: Seq<Seq<AbstractInterval>>, n: int, cs: Seq<ZEBRASymbolicExpr>, public: Option<&[AbstractInterval]>, p: u32, strict: bool) -> bool {
    forall|i: int| 0 <= i < n ==> #[trigger] row_all_true(rows, i, cs, cs.len() as int, public, p, strict)
}

/// Some test of some constraint on the first `n` rows answers `False`.
pub open spec fn some_test_false(rows: Seq<Seq<AbstractInterval>>, n: int, cs: Seq<ZEBRASymbolicExpr>, public: Option<&[AbstractInterval]>, p: u32, strict: bool) -> bool {
    exists|i: int| 0 <= i < n && #[trigger] row_some_false(rows, i, cs, cs.len() as int, public, p, strict)
}

proof fn lemma_base_row_outcome(rows: Seq<Seq<AbstractInterval>>, i: int, cs: Seq<ZEBRASymbolicExpr>, j: int, public: Option<&[AbstractInterval]>, p: u32, strict: bool, st: EvalState)
    requires
        0 <= j <= cs.len(),
    ensures
        ({
            let r = base_row(rows, i, cs, j, public, p, strict, st);
            &&& r.0 == MayBeFlag::False <==> (st.0 == MayBeFlag::False || row_some_false(rows, i, cs, j, public, p, strict))
            &&& r.0 == MayBeFlag::True <==> (st.0 == MayBeFlag::True && row_all_true(rows, i, cs, j, public, p, strict))
            &&& r.0 == MayBeFlag::MayBe ==> st.0 == MayBeFlag::MayBe || r.1 >= st.1 + 1
            &&& st.1 <= r.1
        }),
    decreases j,
{
    if j > 0 {
        lemma_base_row_outcome(rows, i, cs, j - 1, public, p, strict, st);
        let f = base_flag(rows, i, cs[j - 1], public, p, strict);
        if f == MayBeFlag::False {
            assert(row_some_false(rows, i, cs, j, public, p, strict));
        }
        if row_some_false(rows, i, cs, j, public, p, strict) && !row_some_false(rows, i, cs, j - 1, public, p, strict) {
            let k = choose|k: int| 0 <= k < j && #[trigger] base_flag(rows, i, cs[k], public, p, strict) == MayBeFlag::False;
            assert(k == j - 1);
        }
        if row_all_true(rows, i, cs, j, public, p, strict) {
            assert(row_all_true(rows, i, cs, j - 1, public, p, strict));
            assert(f == MayBeFlag::True);
        }
        if f == MayBeFlag::MayBe {
            assert(!row_all_true(rows, i, cs, j, public, p, strict));
        }
    } else {
        assert(!row_some_false(rows, i, cs, 0, public, p, strict));
    }
}

proof fn lemma_base_rows_outcome(rows: Seq<Seq<AbstractInterval>>, n: int, cs: Seq<ZEBRASymbolicExpr>, public: Option<&[AbstractInterval]>, p: u32, strict: bool, st: EvalState)
    requires
        0 <= n,
    ensures
        ({
            let r = base_rows(rows, n, cs, public, p, strict, st);
            &&& r.0 == MayBeFlag::False <==> (st.0 == MayBeFlag::False || some_test_false(rows, n, cs, public, p, strict))
            &&& r.0 == MayBeFlag::True <==> (st.0 == MayBeFlag::True && all_tests_true(rows, n, cs, public, p, strict))
            &&& r.0 == MayBeFlag::MayBe ==> st.0 == MayBeFlag::MayBe || r.1 >= st.1 + 1
            &&& st.1 <= r.1
        }),
    decreases n,
{
    if n > 0 {
        lemma_base_rows_outcome(rows, n - 1, cs, public, p, strict, st);
        let prev = base_rows(rows, n - 1, cs, public, p, strict, st);
        lemma_base_row_outcome(rows, n - 1, cs, cs.len() as int, public, p, strict, prev);
        if some_test_false(rows, n, cs, public, p, strict) && !some_test_false(rows, n - 1, cs, public, p, strict) {
            let i = choose|i: int| 0 <= i < n && #[trigger] row_some_false(rows, i, cs, cs.len() as int, public, p, strict);
            assert(i == n - 1);
        }
        if row_some_false(rows, n - 1, cs, cs.len() as int, public, p, strict) {
            assert(some_test_false(rows, n, cs, public, p, strict));
        }
        if all_tests_true(rows, n, cs, public, p, strict) {
            assert(row_all_true(rows, n - 1, cs, cs.len() as int, public, p, strict));
        }
        if all_tests_true(rows, n - 1, cs, public, p, strict) && row_all_true(rows, n - 1, cs, cs.len() as int, public, p, strict) {
            assert(all_tests_true(rows, n, cs, public, p, strict));
        }
    } else {
        assert(!some_test_false(rows, 0, cs, public, p, strict));
    }
}

/// The outcome of evaluating constraints row by row from the start state
/// `(True, potential, memo)` (`eval_base_constraints`): `False` exactly when
/// some test answers `False`, `True` exactly when every test answers
/// `True`, and then the count and the cells are unchanged; on `MayBe` the
/// count has grown.
pub proof fn law_base_outcome(rows: Seq<Seq<AbstractInterval>>, cs: Seq<ZEBRASymbolicExpr>, public: Option<&[AbstractInterval]>, p: u32, strict: bool, potential: int, memo: Set<(usize, usize)>)
    ensures
        ({
            let n = rows.len() as int;
            let r = base_rows(rows, n, cs, public, p, strict, (MayBeFlag::True, potential, memo));
            &&& r.0 == MayBeFlag::False <==> some_test_false(rows, n, cs, public, p, strict)
            &&& r.0 == MayBeFlag::True <==> all_tests_true(rows, n, cs, public, p, strict)
            &&& r.0 == MayBeFlag::True ==> r.1 == potential && r.2 == memo
            &&& r.0 == MayBeFlag::MayBe ==> r.1 >= potential + 1
        }),
{
    let n = rows.len() as int;
    let st = (MayBeFlag::True, potential, memo);
    lemma_base_rows_outcome(rows, n, cs, public, p, strict, st);
    if base_rows(rows, n, cs, public, p, strict, st).0 == MayBeFlag::True {
        lemma_true_keeps_rows(rows, n, cs, public, p, strict, st);
    }
}

proof fn lemma_true_keeps_row(rows: Seq<Seq<AbstractInterval>>, i: int, cs: Seq<ZEBRASymbolicExpr>, j: int, public: Option<&[AbstractInterval]>, p: u32, strict: bool, st: EvalState)
    requires
        0 <= j,
        base_row(rows, i, cs, j, public, p, strict, st).0 == MayBeFlag::True,
    ensures
        base_row(rows, i, cs, j, public, p, strict, st) == st,
    decreases j,
{
    if j > 0 {
        let prev = base_row(rows, i, cs, j - 1, public, p, strict, st);
        lemma_base_row_count(rows, i, cs, j - 1, public, p, strict, st);
        if prev.0 != MayBeFlag::True {
            // a step never turns a non-True answer into True
            assert(base_row(rows, i, cs, j, public, p, strict, st).0 != MayBeFlag::True);
        }
        lemma_true_keeps_row(rows, i, cs, j - 1, public, p, strict, st);
    }
}

proof fn lemma_true_keeps_rows(rows: Seq<Seq<AbstractInterval>>, n: int, cs: Seq<ZEBRASymbolicExpr>, public: Option<&[AbstractInterval]>, p: u32, strict: bool, st: EvalState)
    requires
        0 <= n,
        base_rows(rows, n, cs, public, p, strict, st).0 == MayBeFlag::True,
    ensures
        base_rows(rows, n, cs, public, p, strict, st) == st,
    decreases n,
{
    if n > 0 {
        let prev = base_rows(rows, n - 1, cs, public, p, strict, st);
        lemma_base_row_outcome(rows, n - 1, cs, cs.len() as int, public, p, strict, prev);
        lemma_true_keeps_row(rows, n - 1, cs, cs.len() as int, public, p, strict, prev);
        lemma_true_keeps_rows(rows, n - 1, cs, public, p, strict, st);
    }
}

proof fn lemma_pv_outcome(rows: Seq<Seq<AbstractInterval>>, cs: Seq<ZEBRASymbolicExpr>, k: int, public: Option<&[AbstractInterval]>, p: u32, pos: bool, st: PvState)
    requires
        0 <= k <= cs.len(),
    ensures
        ({
            let r = pv_run(rows, cs, k, public, p, pos, st);
            &&& st.2 <= r.2
            &&& !r.0 && !r.1 ==> !st.1 || r.2 >= st.2 + 1
            &&& !r.0 && r.1 ==> !st.0 && st.1 && forall|m: int| 0 <= m < k ==> #[trigger] pv_flag(rows, cs[m], public, p, pos) == MayBeFlag::True
            &&& st.0 ==> r == st
        }),
    decreases k,
{
    if k > 0 {
        lemma_pv_outcome(rows, cs, k - 1, public, p, pos, st);
        let prev = pv_run(rows, cs, k - 1, public, p, pos, st);
        let r = pv_run(rows, cs, k, public, p, pos, st);
        if !r.0 && r.1 {
            assert(!prev.0 && prev.1);
            assert forall|m: int| 0 <= m < k implies #[trigger] pv_flag(rows, cs[m], public, p, pos) == MayBeFlag::True by {
                if m == k - 1 {
                }
            }
        }
    }
}

/// The outcomes of checking all the constraints (`eval_constraints`):
/// when there are blocking constraints and each surely holds, the answer is
/// `False` with count 0 and no cells; a `False` answer has count 0; a
/// `True` answer has count 0 and every test of the AIR constraints (in the
/// field), of the lookup constraints (as integers) and of the public
/// constraints answers `True`; a `MayBe` answer has a count of at least 1.
pub proof fn law_eval_outcomes(rows: Seq<Seq<AbstractInterval>>, public: Option<&[AbstractInterval]>, c: ZEBRAConstraints, p: u32)
    ensures
        ({
            let s = spec_eval_constraints(rows, public, c, p);
            let n = rows.len() as int;
            &&& !blocking_passes(rows, public, c, p) ==> s == (MayBeFlag::False, 0int, Set::<(usize, usize)>::empty())
            &&& s.0 == MayBeFlag::False ==> s.1 == 0
            &&& s.0 == MayBeFlag::True ==> {
                &&& s.1 == 0
                &&& all_tests_true(rows, n, c.air_constraints@, public, p, false)
                &&& all_tests_true(rows, n, c.lookup_constraints@, public, p, true)
                &&& forall|k: int| 0 <= k < c.pv_pos_constraints@.len() ==> #[trigger] pv_flag(rows, c.pv_pos_constraints@[k], public, p, true) == MayBeFlag::True
                &&& forall|k: int| 0 <= k < c.pv_neg_constraints@.len() ==> #[trigger] pv_flag(rows, c.pv_neg_constraints@[k], public, p, false) == MayBeFlag::True
            }
            &&& s.0 == MayBeFlag::MayBe ==> s.1 >= 1
        }),
{
    let n = rows.len() as int;
    let st0: EvalState = (MayBeFlag::True, 0, Set::empty());
    let air = base_rows(rows, n, c.air_constraints@, public, p, false, st0);
    let lk_st: EvalState = (MayBeFlag::True, air.1, air.2);
    let lk = base_rows(rows, n, c.lookup_constraints@, public, p, true, lk_st);
    let all = air.0 == MayBeFlag::True && lk.0 == MayBeFlag::True;
    let pos = c.pv_pos_constraints@;
    let neg = c.pv_neg_constraints@;
    let pp = pv_run(rows, pos, pos.len() as int, public, p, true, (false, all, lk.1));
    let pn = pv_run(rows, neg, neg.len() as int, public, p, false, pp);
    lemma_base_rows_outcome(rows, n, c.air_constraints@, public, p, false, st0);
    lemma_base_rows_outcome(rows, n, c.lookup_constraints@, public, p, true, lk_st);
    lemma_pv_outcome(rows, pos, pos.len() as int, public, p, true, (false, all, lk.1));
    lemma_pv_outcome(rows, neg, neg.len() as int, public, p, false, pp);
}

} // verus!
