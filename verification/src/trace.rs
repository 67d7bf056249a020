use vstd::prelude::*;

use rand::rngs::StdRng;
use rand::seq::SliceRandom;
use rand::Rng;

use crate::interval::AbstractInterval;
use crate::render::{interval_string, interval_text};

verus! {

#[verifier::external_type_specification]
#[verifier::external_body]
pub struct ExStdRng(StdRng);

/// A table of intervals, one row per step, with the positions of the cells
/// known to hold a single value.
#[derive(Clone, Debug, Hash, PartialEq, Eq)]
pub struct AbstractTrace {
    pub data: Vec<Vec<AbstractInterval>>,
    pub singleton_positions: Vec<(usize, usize)>,
}

/// The rows of a table as sequences.
pub open spec fn rows_of(data: Seq<Vec<AbstractInterval>>) -> Seq<Seq<AbstractInterval>> {
    data.map_values(|r: Vec<AbstractInterval>| r@)
}

impl AbstractTrace {
    pub open spec fn rows(&self) -> Seq<Seq<AbstractInterval>> {
        rows_of(self.data@)
    }
}

/// The positions `(i, j)`, `j < w`, of the single-valued cells of row `i`, in order.
pub open spec fn row_singles(row: Seq<AbstractInterval>, i: usize, w: int) -> Seq<(usize, usize)>
    decreases w,
{
    if w <= 0 {
        Seq::empty()
    } else {
        row_singles(row, i, w - 1) + if row[w - 1].lo == row[w - 1].hi {
            seq![(i, (w - 1) as usize)]
        } else {
            Seq::empty()
        }
    }
}

/// The positions of the single-valued cells of the first `n` rows, in the
/// first `w` columns, row by row.
pub open spec fn trace_singles(rows: Seq<Seq<AbstractInterval>>, w: int, n: int) -> Seq<(usize, usize)>
    decreases n,
{
    if n <= 0 {
        Seq::empty()
    } else {
        trace_singles(rows, w, n - 1) + row_singles(rows[n - 1], (n - 1) as usize, w)
    }
}

/// The positions where two rows differ, over their common length.
pub open spec fn row_diffs(a: Seq<AbstractInterval>, b: Seq<AbstractInterval>, i: usize, k: int) -> Seq<(usize, usize)>
    decreases k,
{
    if k <= 0 {
        Seq::empty()
    } else {
        row_diffs(a, b, i, k - 1) + if a[k - 1] != b[k - 1] {
            seq![(i, (k - 1) as usize)]
        } else {
            Seq::empty()
        }
    }
}

pub open spec fn min_len(a: int, b: int) -> int {
    if a <= b {
        a
    } else {
        b
    }
}

/// The positions where two tables differ, over their common rows and, in
/// each, their common columns, row by row.
pub open spec fn trace_diffs(a: Seq<Seq<AbstractInterval>>, b: Seq<Seq<AbstractInterval>>, n: int) -> Seq<(usize, usize)>
    decreases n,
{
    if n <= 0 {
        Seq::empty()
    } else {
        trace_diffs(a, b, n - 1) + row_diffs(
            a[n - 1],
            b[n - 1],
            (n - 1) as usize,
            min_len(a[n - 1].len() as int, b[n - 1].len() as int),
        )
    }
}

fn copy_row(row: &Vec<AbstractInterval>) -> (r: Vec<AbstractInterval>)
    ensures
        r@ == row@,
{
    let mut out: Vec<AbstractInterval> = Vec::new();
    let mut j: usize = 0;
    while j < row.len()
        invariant
            j <= row.len(),
            out@ == row@.take(j as int),
        decreases row.len() - j,
    {
        out.push(row[j]);
        proof {
            assert(row@.take(j as int + 1) =~= row@.take(j as int).push(row@[j as int]));
        }
        j += 1;
    }
    proof {
        assert(row@.take(row.len() as int) =~= row@);
    }
    out
}

fn copy_positions(p: &Vec<(usize, usize)>) -> (r: Vec<(usize, usize)>)
    ensures
        r@ == p@,
{
    let mut out: Vec<(usize, usize)> = Vec::new();
    let mut j: usize = 0;
    while j < p.len()
        invariant
            j <= p.len(),
            out@ == p@.take(j as int),
        decreases p.len() - j,
    {
        out.push(p[j]);
        proof {
            assert(p@.take(j as int + 1) =~= p@.take(j as int).push(p@[j as int]));
        }
        j += 1;
    }
    proof {
        assert(p@.take(p.len() as int) =~= p@);
    }
    out
}

impl AbstractTrace {
    /// A trace of the table, with the positions of its single-valued cells
    /// in the width of the first row, row by row.
    pub fn new(raw_trace: Vec<Vec<AbstractInterval>>) -> (r: Self)
        requires
            raw_trace@.len() > 0 ==> forall|i: int|
                0 <= i < raw_trace@.len() ==> (#[trigger] raw_trace@[i])@.len() >= raw_trace@[0]@.len(),
        ensures
            r.data@ == raw_trace@,
            r.singleton_positions@ == trace_singles(
                rows_of(raw_trace@),
                if raw_trace@.len() > 0 {
                    raw_trace@[0]@.len() as int
                } else {
                    0
                },
                raw_trace@.len() as int,
            ),
    {
        let mut singleton_positions: Vec<(usize, usize)> = Vec::new();
        let n = raw_trace.len();
        if n == 0 {
            return Self { data: raw_trace, singleton_positions };
        }
        let w = raw_trace[0].len();
        let ghost rows = rows_of(raw_trace@);
        let mut i: usize = 0;
        while i < n
            invariant
                n == raw_trace@.len(),
                n > 0,
                w == raw_trace@[0]@.len(),
                rows == rows_of(raw_trace@),
                forall|k: int| 0 <= k < raw_trace@.len() ==> (#[trigger] raw_trace@[k])@.len() >= w,
                i <= n,
                singleton_positions@ == trace_singles(rows, w as int, i as int),
            decreases n - i,
        {
            let mut j: usize = 0;
            let ghost before = singleton_positions@;
            while j < w
                invariant
                    n == raw_trace@.len(),
                    i < n,
                    w <= raw_trace@[i as int]@.len(),
                    rows == rows_of(raw_trace@),
                    j <= w,
                    singleton_positions@ == before + row_singles(rows[i as int], i, j as int),
                decreases w - j,
            {
                if raw_trace[i][j].is_singleton() {
                    singleton_positions.push((i, j));
                }
                proof {
                    assert(rows[i as int] == raw_trace@[i as int]@);
                    assert(singleton_positions@ =~= before + row_singles(rows[i as int], i, j as int + 1));
                }
                j += 1;
            }
            i += 1;
        }
        Self { data: raw_trace, singleton_positions }
    }

    /// A copy of the trace.
    pub fn copy(&self) -> (r: Self)
        ensures
            r.data@.len() == self.data@.len(),
            r.rows() == self.rows(),
            r.singleton_positions@ == self.singleton_positions@,
    {
        let mut data: Vec<Vec<AbstractInterval>> = Vec::new();
        let mut i: usize = 0;
        while i < self.data.len()
            invariant
                i <= self.data.len(),
                data@.len() == i,
                forall|k: int| 0 <= k < i ==> (#[trigger] data@[k])@ == self.data@[k]@,
            decreases self.data.len() - i,
        {
            data.push(copy_row(&self.data[i]));
            i += 1;
        }
        let r = Self { data, singleton_positions: copy_positions(&self.singleton_positions) };
        proof {
            assert(r.rows() =~= self.rows());
        }
        r
    }

    /// The positions where the two traces differ, over their common rows
    /// and columns, row by row.
    pub fn diff_positions(&self, other: &Self) -> (r: Vec<(usize, usize)>)
        ensures
            r@ == trace_diffs(
                self.rows(),
                other.rows(),
                min_len(self.data@.len() as int, other.data@.len() as int),
            ),
    {
        let mut diffs: Vec<(usize, usize)> = Vec::new();
        let n = if self.data.len() <= other.data.len() {
            self.data.len()
        } else {
            other.data.len()
        };
        let ghost a = self.rows();
        let ghost b = other.rows();
        let mut i: usize = 0;
        while i < n
            invariant
                n <= self.data@.len(),
                n <= other.data@.len(),
                a == self.rows(),
                b == other.rows(),
                i <= n,
                diffs@ == trace_diffs(a, b, i as int),
            decreases n - i,
        {
            let row_a = &self.data[i];
            let row_b = &other.data[i];
            let m = if row_a.len() <= row_b.len() {
                row_a.len()
            } else {
                row_b.len()
            };
            let ghost before = diffs@;
            proof {
                assert(a[i as int] == row_a@);
                assert(b[i as int] == row_b@);
            }
            let mut j: usize = 0;
            while j < m
                invariant
                    m <= row_a@.len(),
                    m <= row_b@.len(),
                    j <= m,
                    diffs@ == before + row_diffs(row_a@, row_b@, i, j as int),
                decreases m - j,
            {
                if row_a[j] != row_b[j] {
                    diffs.push((i, j));
                }
                proof {
                    assert(diffs@ =~= before + row_diffs(row_a@, row_b@, i, j as int + 1));
                }
                j += 1;
            }
            i += 1;
        }
        diffs
    }
}

/// The candidates of a refinement at row `i`: the first column of `order`
/// (all but its last entry considered) whose cell holds more than one value,
/// or its last column, is split in two; the trace is copied once per half,
/// with that cell set to the half and, when the half is a single value, its
/// position added. When that cell holds a single value, the result is two
/// copies of the trace and `false`.
pub open spec fn refine_column(rows: Seq<Seq<AbstractInterval>>, order: Seq<usize>, i: int) -> int {
    first_unsplit(rows[i], order, 0)
}

/// The first index `j` from `k` on, below the last one, whose column holds
/// more than one value in `row`; the last index when there is none.
pub open spec fn first_unsplit(row: Seq<AbstractInterval>, order: Seq<usize>, k: int) -> int
    decreases order.len() - k,
{
    if k >= order.len() - 1 {
        k
    } else if row[order[k] as int].lo == row[order[k] as int].hi {
        first_unsplit(row, order, k + 1)
    } else {
        k
    }
}

/// The trace with cell `(i, j)` set to `v`, and `(i, j)` added to the
/// single-valued positions when `v` is a single value.
pub open spec fn with_cell(rows: Seq<Seq<AbstractInterval>>, singles: Seq<(usize, usize)>, i: int, j: int, v: AbstractInterval) -> (Seq<Seq<AbstractInterval>>, Seq<(usize, usize)>) {
    (
        rows.update(i, rows[i].update(j, v)),
        if v.lo == v.hi {
            singles.push((i as usize, j as usize))
        } else {
            singles
        },
    )
}

/// The cell of row `i` the refinement would split is well defined.
pub open spec fn refine_at_ok(rows: Seq<Seq<AbstractInterval>>, order: Seq<usize>, i: int) -> bool {
    &&& 0 <= i < rows.len()
    &&& order.len() > 0
    &&& forall|k: int| 0 <= k < order.len() ==> (#[trigger] order[k]) < rows[i].len()
    &&& rows[i][order[refine_column(rows, order, i)] as int].split_ok()
}

proof fn lemma_first_unsplit_range(row: Seq<AbstractInterval>, order: Seq<usize>, k: int)
    requires
        0 <= k < order.len(),
    ensures
        k <= first_unsplit(row, order, k) < order.len(),
        forall|m: int| k <= m < first_unsplit(row, order, k) ==> row[order[m] as int].lo == row[order[m] as int].hi,
    decreases order.len() - k,
{
    if k < order.len() - 1 && row[order[k] as int].lo == row[order[k] as int].hi {
        lemma_first_unsplit_range(row, order, k + 1);
    }
}

/// What a refinement at row `i` with the columns in `order` gives (see
/// `refine_trace_at`).
pub open spec fn refined(trace: AbstractTrace, order: Seq<usize>, i: int, r: (Option<Vec<AbstractTrace>>, bool)) -> bool {
        ({
            let rows = trace.rows();
            let j = order[refine_column(rows, order, i)] as int;
            let cell = rows[i][j];
            match r.0 {
                Some(v) => if cell.lo != cell.hi {
                    &&& r.1
                    &&& v@.len() == cell.spec_split().len()
                    &&& forall|k: int| 0 <= k < v@.len() ==> ((#[trigger] v@[k]).rows(), v@[k].singleton_positions@) == with_cell(rows, trace.singleton_positions@, i, j, cell.spec_split()[k])
                } else {
                    &&& !r.1
                    &&& v@.len() == 2
                    &&& forall|k: int| 0 <= k < 2 ==> (#[trigger] v@[k]).rows() == rows && v@[k].singleton_positions@ == trace.singleton_positions@
                },
                None => false,
            }
        })
}

/// Splits the cell of row `i` chosen by `order` (see `refine_column`) and
/// returns the candidate traces, or two copies of the trace and `false`
/// when that cell holds a single value.
pub fn refine_trace_at(trace: &AbstractTrace, order: &Vec<usize>, i: usize, prime: u32) -> (r: (Option<Vec<AbstractTrace>>, bool))
    requires
        refine_at_ok(trace.rows(), order@, i as int),
    ensures
        refined(*trace, order@, i as int, r),
{
    let ghost rows = trace.rows();
    let row = &trace.data[i];
    proof {
        assert(rows[i as int] == row@);
        lemma_first_unsplit_range(row@, order@, 0);
    }
    let mut j: usize = 0;
    while j < order.len() - 1 && row[order[j]].is_singleton()
        invariant
            order@.len() > 0,
            j < order@.len(),
            forall|k: int| 0 <= k < order@.len() ==> (#[trigger] order@[k]) < row@.len(),
            first_unsplit(row@, order@, j as int) == first_unsplit(row@, order@, 0),
        decreases order.len() - j,
    {
        j += 1;
    }
    let col = order[j];
    let cell = row[col];
    if !cell.is_singleton() {
        let vs = cell.split(prime);
        let mut results: Vec<AbstractTrace> = Vec::new();
        let mut k: usize = 0;
        while k < vs.len()
            invariant
                i < trace.data@.len(),
                col < trace.data@[i as int]@.len(),
                rows == trace.rows(),
                k <= vs.len(),
                results@.len() == k,
                forall|m: int| 0 <= m < k ==> ((#[trigger] results@[m]).rows(), results@[m].singleton_positions@) == with_cell(rows, trace.singleton_positions@, i as int, col as int, vs@[m]),
            decreases vs.len() - k,
        {
            let v = vs[k];
            let mut new_trace = trace.copy();
            if v.is_singleton() {
                new_trace.singleton_positions.push((i, col));
            }
            let ghost before_rows = new_trace.rows();
            proof {
                assert(new_trace.rows()[i as int] == new_trace.data@[i as int]@);
                assert(rows[i as int] == trace.data@[i as int]@);
            }
            let mut new_row = copy_row(&new_trace.data[i]);
            new_row.set(col, v);
            new_trace.data.set(i, new_row);
            proof {
                assert(new_trace.rows() =~= rows.update(i as int, rows[i as int].update(col as int, v)));
            }
            results.push(new_trace);
            k += 1;
        }
        (Some(results), true)
    } else {
        let t1 = trace.copy();
        let t2 = trace.copy();
        let v = vec![t1, t2];
        (Some(v), false)
    }
}

/// A uniformly random row index in `[lo, hi]`, drawn by
/// `rand::Rng::random_range(lo..hi + 1)`.
#[verifier::external_body]
fn random_row(rng: &mut StdRng, lo: usize, hi: usize) -> (r: usize)
    requires
        lo <= hi < usize::MAX,
    ensures
        lo <= r <= hi,
{
    rng.random_range(lo..(hi + 1))
}

/// Shuffles the entries in place by `rand::seq::SliceRandom::shuffle`; the
/// result is a permutation of the entries.
#[verifier::external_body]
fn shuffle_indices(v: &mut Vec<usize>, rng: &mut StdRng)
    ensures
        final(v)@.len() == old(v)@.len(),
        final(v)@.to_multiset() == old(v)@.to_multiset(),
{
    v.shuffle(rng);
}

/// Refines the trace at a random row of `[min_row_id, max_row_id]`, trying
/// the target columns in a random order (see `refine_trace_at`). Returns
/// `None` when every cell holds a single value or there is no target.
pub fn refine_trace(
    trace: &AbstractTrace,
    refinment_target_indicies: &Vec<usize>,
    min_row_id: usize,
    max_row_id: usize,
    prime: u32,
    rng: &mut StdRng,
) -> (r: (Option<Vec<AbstractTrace>>, bool))
    requires
        trace.data@.len() > 0,
        trace.data@.len() * trace.data@[0]@.len() <= usize::MAX,
        min_row_id <= max_row_id < trace.data@.len(),
        forall|k: int| 0 <= k < refinment_target_indicies@.len() ==> forall|i: int| min_row_id <= i <= max_row_id ==> (#[trigger] refinment_target_indicies@[k]) < (#[trigger] trace.data@[i])@.len(),
        forall|i: int, j: int| min_row_id <= i <= max_row_id && 0 <= j < trace.data@[i]@.len() ==> (#[trigger] trace.data@[i]@[j]).split_ok(),
    ensures
        (r.0 is None) == (trace.singleton_positions@.len() == trace.data@.len() * trace.data@[0]@.len() || refinment_target_indicies@.len() == 0),
        r.0 is None ==> !r.1,
        r.0 is Some ==> exists|i: int, order: Seq<usize>|
            min_row_id <= i <= max_row_id && order.to_multiset() == refinment_target_indicies@.to_multiset()
                && #[trigger] refined(*trace, order, i, r),
{
    if trace.singleton_positions.len() == trace.data.len() * trace.data[0].len() {
        return (None, false);
    }
    if refinment_target_indicies.len() == 0 {
        return (None, false);
    }
    let mut order = copy_positions_usize(refinment_target_indicies);
    let i = random_row(rng, min_row_id, max_row_id);
    shuffle_indices(&mut order, rng);
    proof {
        assert forall|k: int| 0 <= k < order@.len() implies (#[trigger] order@[k]) < trace.rows()[i as int].len() by {
            order@.to_multiset_ensures();
            refinment_target_indicies@.to_multiset_ensures();
            assert(order@.contains(order@[k]));
            assert(order@.to_multiset().count(order@[k]) > 0);
            assert(refinment_target_indicies@.to_multiset().count(order@[k]) > 0);
            assert(refinment_target_indicies@.contains(order@[k]));
            let m = choose|m: int| 0 <= m < refinment_target_indicies@.len() && refinment_target_indicies@[m] == order@[k];
            assert(refinment_target_indicies@[m] < trace.data@[i as int]@.len());
        }
        lemma_first_unsplit_range(trace.rows()[i as int], order@, 0);
    }
    let r = refine_trace_at(trace, &order, i, prime);
    proof {
        assert(refined(*trace, order@, i as int, r));
    }
    r
}

/// The candidate children of a search node: the trace refined on the
/// boolean target columns, or, when that split no multi-valued cell, on the
/// main target columns (`None` when nothing is left to split).
pub fn node_candidates(
    trace: &AbstractTrace,
    bool_targets: &Vec<usize>,
    main_targets: &Vec<usize>,
    min_row_id: usize,
    max_row_id: usize,
    prime: u32,
    rng: &mut StdRng,
) -> (r: Option<Vec<AbstractTrace>>)
    requires
        trace.data@.len() > 0,
        trace.data@.len() * trace.data@[0]@.len() <= usize::MAX,
        min_row_id <= max_row_id < trace.data@.len(),
        forall|k: int| 0 <= k < bool_targets@.len() ==> forall|i: int| min_row_id <= i <= max_row_id ==> (#[trigger] bool_targets@[k]) < (#[trigger] trace.data@[i])@.len(),
        forall|k: int| 0 <= k < main_targets@.len() ==> forall|i: int| min_row_id <= i <= max_row_id ==> (#[trigger] main_targets@[k]) < (#[trigger] trace.data@[i])@.len(),
        forall|i: int, j: int| min_row_id <= i <= max_row_id && 0 <= j < trace.data@[i]@.len() ==> (#[trigger] trace.data@[i]@[j]).split_ok(),
    ensures
        trace.singleton_positions@.len() == trace.data@.len() * trace.data@[0]@.len() ==> r is None,
        r is None ==> trace.singleton_positions@.len() == trace.data@.len() * trace.data@[0]@.len()
            || main_targets@.len() == 0,
        r is Some ==> {
            ||| exists|i: int, order: Seq<usize>|
                min_row_id <= i <= max_row_id && order.to_multiset() == bool_targets@.to_multiset()
                    && #[trigger] refined(*trace, order, i, (r, true))
            ||| exists|i: int, order: Seq<usize>, flag: bool|
                min_row_id <= i <= max_row_id && order.to_multiset() == main_targets@.to_multiset()
                    && #[trigger] refined(*trace, order, i, (r, flag))
        },
{
    let (first, split) = refine_trace(trace, bool_targets, min_row_id, max_row_id, prime, rng);
    if split {
        first
    } else {
        let (second, flag) = refine_trace(trace, main_targets, min_row_id, max_row_id, prime, rng);
        proof {
            if second is Some {
                let (i, order) = choose|i: int, order: Seq<usize>|
                    min_row_id <= i <= max_row_id && order.to_multiset() == main_targets@.to_multiset()
                        && #[trigger] refined(*trace, order, i, (second, flag));
                assert(refined(*trace, order, i, (second, flag)));
            }
        }
        second
    }
}

fn copy_positions_usize(p: &Vec<usize>) -> (r: Vec<usize>)
    ensures
        r@ == p@,
{
    let mut out: Vec<usize> = Vec::new();
    let mut j: usize = 0;
    while j < p.len()
        invariant
            j <= p.len(),
            out@ == p@.take(j as int),
        decreases p.len() - j,
    {
        out.push(p[j]);
        proof {
            assert(p@.take(j as int + 1) =~= p@.take(j as int).push(p@[j as int]));
        }
        j += 1;
    }
    proof {
        assert(p@.take(p.len() as int) =~= p@);
    }
    out
}

impl AbstractTrace {
    /// Sets cell `(r, j)` to `v`.
    pub fn set_cell(&mut self, r: usize, j: usize, v: AbstractInterval)
        requires
            r < old(self).data@.len(),
            j < old(self).data@[r as int]@.len(),
        ensures
            final(self).rows() == old(self).rows().update(r as int, old(self).rows()[r as int].update(j as int, v)),
            final(self).data@.len() == old(self).data@.len(),
            forall|q: int| 0 <= q < final(self).data@.len() ==> (#[trigger] final(self).data@[q])@.len() == old(self).data@[q]@.len(),
            final(self).singleton_positions@ == old(self).singleton_positions@,
    {
        let ghost before = self.rows();
        let mut row = copy_row(&self.data[r]);
        row.set(j, v);
        self.data.set(r, row);
        proof {
            assert(self.rows() =~= before.update(r as int, before[r as int].update(j as int, v)));
        }
    }
}

/// The texts of the cells `row[idxs[0]], ..., row[idxs[k - 1]]` joined by `, `.
pub open spec fn cells_text(row: Seq<AbstractInterval>, idxs: Seq<usize>, k: nat) -> Seq<char>
    decreases k,
{
    if k == 0 {
        Seq::empty()
    } else if k == 1 {
        interval_text(row[idxs[0] as int])
    } else {
        cells_text(row, idxs, (k - 1) as nat) + ", "@ + interval_text(row[idxs[k - 1] as int])
    }
}

/// The texts of the cells of row `i` at the columns `idxs`, in this order,
/// joined by `, `.
pub fn trace_fmt_with_idxs(trace: &AbstractTrace, i: usize, idxs: &[usize]) -> (r: String)
    requires
        i < trace.data@.len(),
        forall|k: int| 0 <= k < idxs@.len() ==> #[trigger] idxs@[k] < trace.data@[i as int]@.len(),
    ensures
        r@ == cells_text(trace.data@[i as int]@, idxs@, idxs@.len()),
{
    let row = &trace.data[i];
    let mut r = String::new();
    let mut k: usize = 0;
    while k < idxs.len()
        invariant
            k <= idxs@.len(),
            *row == trace.data@[i as int],
            forall|k: int| 0 <= k < idxs@.len() ==> #[trigger] idxs@[k] < row@.len(),
            r@ == cells_text(row@, idxs@, k as nat),
        decreases idxs@.len() - k,
    {
        let t = interval_string(&row[idxs[k]]);
        if k == 0 {
            r = t;
        } else {
            r.append(", ");
            r.append(t.as_str());
        }
        k = k + 1;
    }
    r
}

/// `* ` and the texts of the first `k` cells of a row, each followed by `, `.
pub open spec fn row_text(row: Seq<AbstractInterval>, k: nat) -> Seq<char>
    decreases k,
{
    if k == 0 {
        "* "@
    } else {
        row_text(row, (k - 1) as nat) + interval_text(row[k - 1]) + ", "@
    }
}

/// The lines of the first `k` rows.
pub open spec fn table_text(rows: Seq<Seq<AbstractInterval>>, k: nat) -> Seq<char>
    decreases k,
{
    if k == 0 {
        Seq::empty()
    } else {
        table_text(rows, (k - 1) as nat) + row_text(rows[k - 1], rows[k - 1].len()) + "\n"@
    }
}

impl AbstractTrace {
    /// One line per row: `* `, then each cell's text followed by `, `.
    pub fn render(&self) -> (r: String)
        ensures
            r@ == table_text(self.rows(), self.data@.len() as nat),
    {
        let mut r = String::new();
        let mut i: usize = 0;
        while i < self.data.len()
            invariant
                i <= self.data@.len(),
                r@ == table_text(self.rows(), i as nat),
            decreases self.data@.len() - i,
        {
            let row = &self.data[i];
            let mut line = String::from_str("* ");
            let mut j: usize = 0;
            while j < row.len()
                invariant
                    j <= row@.len(),
                    *row == self.data@[i as int],
                    line@ == row_text(row@, j as nat),
                decreases row@.len() - j,
            {
                let t = interval_string(&row[j]);
                line.append(t.as_str());
                line.append(", ");
                j = j + 1;
            }
            line.append("\n");
            r.append(line.as_str());
            proof {
                assert(self.rows()[i as int] == row@);
                vstd::seq_lib::lemma_concat_associative(
                    table_text(self.rows(), i as nat),
                    row_text(row@, row@.len()),
                    "\n"@,
                );
            }
            i = i + 1;
        }
        r
    }
}

} // verus!
