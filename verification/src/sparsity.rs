use vstd::prelude::*;
use std::collections::HashSet;

use crate::analysis::{cols_of, cse_ops_all, count_arith_ops_cse, gather_cols, gather_neighbors, vals_of};
use crate::constraint::ZEBRAConstraints;
use crate::symbolic::{ZEBRASymbolicExpr, ZEBRASymbolicVal};

verus! {

broadcast use vstd::std_specs::hash::group_hash_axioms;

/// The expressions a sequence of references points to.
pub open spec fn derefs(s: Seq<&ZEBRASymbolicExpr>) -> Seq<ZEBRASymbolicExpr> {
    s.map_values(|e: &ZEBRASymbolicExpr| *e)
}

/// The columns read by the first `k` constraints.
pub open spec fn cols_union(es: Seq<ZEBRASymbolicExpr>, k: nat) -> Set<usize>
    decreases k,
{
    if k == 0 {
        Set::empty()
    } else {
        cols_union(es, (k - 1) as nat).union(cols_of(es[k - 1]))
    }
}

/// The number of columns each of the first `k` constraints reads, summed.
pub open spec fn width_total(es: Seq<ZEBRASymbolicExpr>, k: nat) -> nat
    decreases k,
{
    if k == 0 {
        0
    } else {
        width_total(es, (k - 1) as nat) + cols_of(es[k - 1]).len()
    }
}

/// The number of the first `k` constraints that read column `j`.
pub open spec fn hits(es: Seq<ZEBRASymbolicExpr>, j: usize, k: nat) -> nat
    decreases k,
{
    if k == 0 {
        0
    } else {
        hits(es, j, (k - 1) as nat) + if cols_of(es[k - 1]).contains(j) {
            1nat
        } else {
            0nat
        }
    }
}

/// The trace cells read by the first `k` constraints.
pub open spec fn vals_union(es: Seq<ZEBRASymbolicExpr>, k: nat) -> Set<ZEBRASymbolicVal>
    decreases k,
{
    if k == 0 {
        Set::empty()
    } else {
        vals_union(es, (k - 1) as nat).union(vals_of(es[k - 1]))
    }
}

/// The expressions of the blocking constraints.
pub open spec fn blocking_exprs(c: ZEBRAConstraints) -> Seq<ZEBRASymbolicExpr> {
    c.blocking_constraints@.map_values(|b: (usize, ZEBRASymbolicExpr)| b.1)
}

/// The public constraints: the positive ones, then the negated ones.
pub open spec fn pv_exprs(c: ZEBRAConstraints) -> Seq<ZEBRASymbolicExpr> {
    c.pv_pos_constraints@ + c.pv_neg_constraints@
}

/// The arithmetic constraints: AIR, public and blocking ones.
pub open spec fn arith_exprs(c: ZEBRAConstraints) -> Seq<ZEBRASymbolicExpr> {
    c.air_constraints@ + pv_exprs(c) + blocking_exprs(c)
}

/// Every constraint: the arithmetic ones and the lookups.
pub open spec fn all_exprs(c: ZEBRAConstraints) -> Seq<ZEBRASymbolicExpr> {
    arith_exprs(c) + c.lookup_constraints@
}

/// The counts behind a sparsity report of a constraint system.
pub struct SparsityCounts {
    /// Columns read by the AIR, lookup and public constraints, and by any of them.
    pub air_covered_columns: usize,
    pub lookup_covered_columns: usize,
    pub pv_covered_columns: usize,
    pub total_covered_columns: usize,
    /// Numbers of AIR, lookup and public constraints.
    pub num_air_constraints: usize,
    pub num_lookup_constraints: usize,
    pub num_pv_constraints: usize,
    /// Columns read per constraint, summed over the AIR, lookup and public ones.
    pub air_width_total: usize,
    pub lookup_width_total: usize,
    pub pv_width_total: usize,
    /// For each column below the width, the number of constraints that read it.
    pub column_hit_counts: Vec<usize>,
    /// Distinct cells read by all the constraints.
    pub neighborhood_size: usize,
    /// Arithmetic operations of the arithmetic constraints, shared
    /// subexpressions counted once.
    pub t_arith: usize,
    /// Number of arithmetic constraints.
    pub num_arith_constraints: usize,
}

/// The counts fit in `usize`.
pub open spec fn sparsity_ok(c: ZEBRAConstraints) -> bool {
    &&& width_total(c.air_constraints@, c.air_constraints@.len()) <= usize::MAX
    &&& width_total(c.lookup_constraints@, c.lookup_constraints@.len()) <= usize::MAX
    &&& width_total(pv_exprs(c), pv_exprs(c).len()) <= usize::MAX
    &&& cse_ops_all(arith_exprs(c)).0 <= usize::MAX
    &&& all_exprs(c).len() <= usize::MAX
}

/// The columns read by the constraints.
fn covered_cols(es: &Vec<&ZEBRASymbolicExpr>) -> (r: HashSet<usize>)
    ensures
        r@ == cols_union(derefs(es@), es@.len()),
{
    let ghost s = derefs(es@);
    let mut all: HashSet<usize> = HashSet::new();
    let mut k: usize = 0;
    while k < es.len()
        invariant
            k <= es@.len(),
            s == derefs(es@),
            all@ == cols_union(s, k as nat),
        decreases es@.len() - k,
    {
        gather_cols(es[k], &mut all);
        k = k + 1;
    }
    all
}

/// The columns read by the constraints and the sum of their widths.
fn coverage(es: &Vec<&ZEBRASymbolicExpr>) -> (r: (HashSet<usize>, usize))
    requires
        width_total(derefs(es@), es@.len()) <= usize::MAX,
    ensures
        r.0@ == cols_union(derefs(es@), es@.len()),
        r.1 == width_total(derefs(es@), es@.len()),
{
    let ghost s = derefs(es@);
    let mut all: HashSet<usize> = HashSet::new();
    let mut width: usize = 0;
    let mut k: usize = 0;
    proof {
        lemma_width_mono(s, 0, s.len());
    }
    while k < es.len()
        invariant
            k <= es@.len(),
            s == derefs(es@),
            width_total(s, s.len()) <= usize::MAX,
            all@ == cols_union(s, k as nat),
            width == width_total(s, k as nat),
        decreases es@.len() - k,
    {
        gather_cols(es[k], &mut all);
        let mut one: HashSet<usize> = HashSet::new();
        gather_cols(es[k], &mut one);
        proof {
            assert(one@ =~= cols_of(s[k as int]));
            lemma_width_mono(s, (k + 1) as nat, s.len());
        }
        width = width + one.len();
        k = k + 1;
    }
    (all, width)
}

proof fn lemma_width_mono(s: Seq<ZEBRASymbolicExpr>, a: nat, b: nat)
    requires
        a <= b,
    ensures
        width_total(s, a) <= width_total(s, b),
    decreases b,
{
    if a < b {
        lemma_width_mono(s, a, (b - 1) as nat);
    }
}

proof fn lemma_hits_bound(s: Seq<ZEBRASymbolicExpr>, j: usize, k: nat)
    ensures
        hits(s, j, k) <= k,
    decreases k,
{
    if k > 0 {
        lemma_hits_bound(s, j, (k - 1) as nat);
    }
}

fn refs<'a>(v: &'a Vec<ZEBRASymbolicExpr>, out: &mut Vec<&'a ZEBRASymbolicExpr>)
    ensures
        derefs(final(out)@) == derefs(old(out)@) + v@,
{
    let ghost start = derefs(out@);
    let mut k: usize = 0;
    while k < v.len()
        invariant
            k <= v@.len(),
            derefs(out@) == start + v@.take(k as int),
        decreases v@.len() - k,
    {
        let ghost prev = out@;
        out.push(&v[k]);
        proof {
            assert(derefs(prev).len() == start.len() + k);
            assert forall|t: int| 0 <= t < out@.len() implies #[trigger] derefs(out@)[t] == (start + v@.take(k + 1))[t] by {
                if t < prev.len() {
                    assert(derefs(prev)[t] == (start + v@.take(
                        k as int,
                    ))[t]);
                }
            }
        }
        k = k + 1;
        assert(derefs(out@) =~= start + v@.take(k as int));
    }
    assert(v@.take(k as int) =~= v@);
}

impl ZEBRAConstraints {
    /// The counts behind the sparsity report of the system over a table of
    /// `num_total_columns` columns.
    pub fn sparsity_counts(&self, num_total_columns: usize) -> (r: SparsityCounts)
        requires
            sparsity_ok(*self),
        ensures
            r.air_covered_columns == cols_union(self.air_constraints@, self.air_constraints@.len()).len(),
            r.lookup_covered_columns == cols_union(self.lookup_constraints@, self.lookup_constraints@.len()).len(),
            r.pv_covered_columns == cols_union(pv_exprs(*self), pv_exprs(*self).len()).len(),
            r.total_covered_columns == cols_union(
                self.air_constraints@ + self.lookup_constraints@ + pv_exprs(*self),
                (self.air_constraints@ + self.lookup_constraints@ + pv_exprs(*self)).len(),
            ).len(),
            r.num_air_constraints == self.air_constraints@.len(),
            r.num_lookup_constraints == self.lookup_constraints@.len(),
            r.num_pv_constraints == pv_exprs(*self).len(),
            r.air_width_total == width_total(self.air_constraints@, self.air_constraints@.len()),
            r.lookup_width_total == width_total(self.lookup_constraints@, self.lookup_constraints@.len()),
            r.pv_width_total == width_total(pv_exprs(*self), pv_exprs(*self).len()),
            r.column_hit_counts@.len() == num_total_columns,
            forall|j: int|
                0 <= j < num_total_columns ==> #[trigger] r.column_hit_counts@[j] == hits(
                    all_exprs(*self),
                    j as usize,
                    all_exprs(*self).len(),
                ),
            r.neighborhood_size == vals_union(all_exprs(*self), all_exprs(*self).len()).len(),
            r.t_arith == cse_ops_all(arith_exprs(*self)).0,
            r.num_arith_constraints == arith_exprs(*self).len(),
    {
        let mut air: Vec<&ZEBRASymbolicExpr> = Vec::new();
        refs(&self.air_constraints, &mut air);
        let mut lookup: Vec<&ZEBRASymbolicExpr> = Vec::new();
        refs(&self.lookup_constraints, &mut lookup);
        let mut pv: Vec<&ZEBRASymbolicExpr> = Vec::new();
        refs(&self.pv_pos_constraints, &mut pv);
        refs(&self.pv_neg_constraints, &mut pv);
        proof {
            assert(derefs(air@) =~= self.air_constraints@);
            assert(derefs(lookup@) =~= self.lookup_constraints@);
            assert(derefs(pv@) =~= pv_exprs(*self));
        }
        let (air_cols, air_width) = coverage(&air);
        let (lookup_cols, lookup_width) = coverage(&lookup);
        let (pv_cols, pv_width) = coverage(&pv);
        let mut arith: Vec<&ZEBRASymbolicExpr> = Vec::new();
        refs(&self.air_constraints, &mut arith);
        refs(&self.pv_pos_constraints, &mut arith);
        refs(&self.pv_neg_constraints, &mut arith);
        let mut k: usize = 0;
        while k < self.blocking_constraints.len()
            invariant
                k <= self.blocking_constraints@.len(),
                derefs(arith@) == self.air_constraints@ + pv_exprs(*self)
                    + blocking_exprs(*self).take(k as int),
            decreases self.blocking_constraints@.len() - k,
        {
            let ghost prev = arith@;
            arith.push(&self.blocking_constraints[k].1);
            proof {
                let pre = self.air_constraints@ + pv_exprs(*self);
                assert(derefs(prev).len() == pre.len() + k);
                assert forall|t: int| 0 <= t < arith@.len() implies #[trigger] derefs(arith@)[t] == (pre + blocking_exprs(*self).take(k + 1))[t] by {
                    if t < prev.len() {
                        assert(derefs(prev)[t] == (pre + blocking_exprs(
                            *self,
                        ).take(k as int))[t]);
                    }
                }
            }
            k = k + 1;
            assert(derefs(arith@) =~= self.air_constraints@ + pv_exprs(
                *self,
            ) + blocking_exprs(*self).take(k as int));
        }
        proof {
            assert(blocking_exprs(*self).take(k as int) =~= blocking_exprs(*self));
            assert(derefs(arith@) =~= arith_exprs(*self));
        }
        let t_arith = count_arith_ops_cse(arith.as_slice());
        let num_arith = arith.len();
        let mut all = arith;
        refs(&self.lookup_constraints, &mut all);
        let ghost es = all_exprs(*self);
        proof {
            assert(derefs(all@) =~= es);
        }
        let mut hit: Vec<usize> = Vec::new();
        let mut j: usize = 0;
        while j < num_total_columns
            invariant
                j <= num_total_columns,
                hit@.len() == j,
                forall|t: int| 0 <= t < j ==> #[trigger] hit@[t] == 0,
            decreases num_total_columns - j,
        {
            hit.push(0);
            j = j + 1;
        }
        let mut neighbors: Vec<ZEBRASymbolicVal> = Vec::new();
        let mut i: usize = 0;
        while i < all.len()
            invariant
                i <= all@.len(),
                es == derefs(all@),
                hit@.len() == num_total_columns,
                forall|t: int| 0 <= t < num_total_columns ==> #[trigger] hit@[t] == hits(es, t as usize, i as nat),
                neighbors@.no_duplicates(),
                neighbors@.to_set() == vals_union(es, i as nat),
            decreases all@.len() - i,
        {
            let mut cols: HashSet<usize> = HashSet::new();
            gather_cols(all[i], &mut cols);
            gather_neighbors(all[i], &mut neighbors);
            proof {
                assert(cols@ =~= cols_of(es[i as int]));
            }
            let mut c: usize = 0;
            while c < num_total_columns
                invariant
                    c <= num_total_columns,
                    i < all@.len(),
                    es == derefs(all@),
                    cols@ == cols_of(es[i as int]),
                    hit@.len() == num_total_columns,
                    forall|t: int| 0 <= t < c ==> #[trigger] hit@[t] == hits(es, t as usize, (i + 1) as nat),
                    forall|t: int| c <= t < num_total_columns ==> #[trigger] hit@[t] == hits(es, t as usize, i as nat),
                decreases num_total_columns - c,
            {
                if cols.contains(&c) {
                    proof {
                        lemma_hits_bound(es, c, i as nat);
                    }
                    let h = hit[c];
                    hit.set(c, h + 1);
                }
                c = c + 1;
            }
            i = i + 1;
        }
        proof {
            neighbors@.unique_seq_to_set();
        }
        let mut covered: Vec<&ZEBRASymbolicExpr> = Vec::new();
        refs(&self.air_constraints, &mut covered);
        refs(&self.lookup_constraints, &mut covered);
        refs(&self.pv_pos_constraints, &mut covered);
        refs(&self.pv_neg_constraints, &mut covered);
        proof {
            assert(derefs(covered@) =~= self.air_constraints@
                + self.lookup_constraints@ + pv_exprs(*self));
        }
        let total = covered_cols(&covered);
        SparsityCounts {
            air_covered_columns: air_cols.len(),
            lookup_covered_columns: lookup_cols.len(),
            pv_covered_columns: pv_cols.len(),
            total_covered_columns: total.len(),
            num_air_constraints: self.air_constraints.len(),
            num_lookup_constraints: self.lookup_constraints.len(),
            num_pv_constraints: pv.len(),
            air_width_total: air_width,
            lookup_width_total: lookup_width,
            pv_width_total: pv_width,
            column_hit_counts: hit,
            neighborhood_size: neighbors.len(),
            t_arith,
            num_arith_constraints: num_arith,
        }
    }
}

/// The fraction `n / total` as a numerator and a denominator: `0 / 1` for
/// an empty total.
pub fn fraction(n: usize, total: usize) -> (r: (u128, u128))
    ensures
        total == 0 ==> r == (0u128, 1u128),
        total != 0 ==> r == (n as u128, total as u128),
{
    if total == 0 {
        (0, 1)
    } else {
        (n as u128, total as u128)
    }
}

impl SparsityCounts {
    /// The AIR sparsity as a fraction: the arithmetic operations over the
    /// product of the number of arithmetic constraints and the size of the
    /// neighbourhood; `0 / 1` when either is zero.
    pub fn air_sparsity_fraction(&self) -> (r: (u128, u128))
        ensures
            self.num_arith_constraints == 0 || self.neighborhood_size == 0 ==> r == (0u128, 1u128),
            self.num_arith_constraints != 0 && self.neighborhood_size != 0 ==> r.0 == self.t_arith
                && r.1 == self.num_arith_constraints * self.neighborhood_size,
    {
        if self.num_arith_constraints == 0 || self.neighborhood_size == 0 {
            (0, 1)
        } else {
            let s = self.num_arith_constraints as u128;
            let n = self.neighborhood_size as u128;
            assert(s * n <= u64::MAX as u128 * u64::MAX as u128) by (nonlinear_arith)
                requires
                    s <= u64::MAX,
                    n <= u64::MAX,
            ;
            (self.t_arith as u128, s * n)
        }
    }

    /// Each coverage of the report as a fraction of the `num_total_columns`
    /// columns: AIR, lookup, public, all.
    pub fn coverage_fractions(&self, num_total_columns: usize) -> (r: [(u128, u128); 4])
        ensures
            r[0] == fraction_spec(self.air_covered_columns, num_total_columns),
            r[1] == fraction_spec(self.lookup_covered_columns, num_total_columns),
            r[2] == fraction_spec(self.pv_covered_columns, num_total_columns),
            r[3] == fraction_spec(self.total_covered_columns, num_total_columns),
    {
        [
            fraction(self.air_covered_columns, num_total_columns),
            fraction(self.lookup_covered_columns, num_total_columns),
            fraction(self.pv_covered_columns, num_total_columns),
            fraction(self.total_covered_columns, num_total_columns),
        ]
    }

    /// The average widths of the AIR, lookup and public constraints as
    /// fractions (columns read over constraints, `0 / 1` for none).
    pub fn width_fractions(&self) -> (r: [(u128, u128); 3])
        ensures
            r[0] == fraction_spec(self.air_width_total, self.num_air_constraints),
            r[1] == fraction_spec(self.lookup_width_total, self.num_lookup_constraints),
            r[2] == fraction_spec(self.pv_width_total, self.num_pv_constraints),
    {
        [
            fraction(self.air_width_total, self.num_air_constraints),
            fraction(self.lookup_width_total, self.num_lookup_constraints),
            fraction(self.pv_width_total, self.num_pv_constraints),
        ]
    }
}

/// The fraction `n / total`, `0 / 1` for an empty total.
pub open spec fn fraction_spec(n: usize, total: usize) -> (u128, u128) {
    if total == 0 {
        (0u128, 1u128)
    } else {
        (n as u128, total as u128)
    }
}

} // verus!
