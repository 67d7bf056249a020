use vstd::prelude::*;
use std::collections::{HashMap, HashSet};

use crate::analysis::{gather_vars, row_vars_of};
use crate::constraint::{row_env, ZEBRAConstraints};
use crate::interval::{AbstractInterval, MayBeFlag};
use crate::patterns::{
    boolean_vars_all, gather_boolean_variables, is_boolean_constraint, spec_boolean_constraint, is_babybear_word_range, is_iszero_operator,
    is_koalabear_word_range, iszero_parts, spec_iszero_rewrite, word_range_parts,
    curr_word_value,
};
use crate::symbolic::ZEBRASymbolicExpr;
use crate::trace::AbstractTrace;

verus! {

broadcast use vstd::std_specs::hash::group_hash_axioms;

/// The initial range of a column.
#[derive(Clone, Copy, Debug, PartialEq, Eq, Structural)]
pub enum RangeType {
    Bool,
    U4,
    U8,
    U16,
    U7,
    Top,
    Const(i128),
    Any(i128, i128),
}

/// The interval of a range: `{0, 1}`, `[0, 15]`, `[0, 255]`, `[0, 65535]`,
/// `[0, 126]`, the whole field, a single value, or the given bounds.
pub open spec fn range_interval(t: RangeType, prime: u32) -> AbstractInterval {
    match t {
        RangeType::Bool => AbstractInterval { lo: 0, hi: 1 },
        RangeType::U4 => AbstractInterval { lo: 0, hi: 15 },
        RangeType::U8 => AbstractInterval { lo: 0, hi: 255 },
        RangeType::U16 => AbstractInterval { lo: 0, hi: 65535 },
        RangeType::U7 => AbstractInterval { lo: 0, hi: 126 },
        RangeType::Top => AbstractInterval { lo: 0, hi: (prime - 1) as i128 },
        RangeType::Const(v) => AbstractInterval { lo: v, hi: v },
        RangeType::Any(lo, hi) => AbstractInterval { lo, hi },
    }
}

/// The initial interval of a column: that of its range, the whole field
/// when it has none.
pub fn make_init_val(col_idx: usize, range_types: &HashMap<usize, RangeType>, prime: u32) -> (r: AbstractInterval)
    ensures
        r == range_interval(
            if range_types@.contains_key(col_idx) {
                range_types@[col_idx]
            } else {
                RangeType::Top
            },
            prime,
        ),
{
    match range_types.get(&col_idx) {
        Some(t) => match t {
            RangeType::Bool => AbstractInterval::bool(),
            RangeType::U8 => AbstractInterval::u8(),
            RangeType::U16 => AbstractInterval::u16(),
            RangeType::U7 => AbstractInterval { lo: 0, hi: 126 },
            RangeType::U4 => AbstractInterval::u4(),
            RangeType::Top => AbstractInterval::top(prime),
            RangeType::Const(val) => AbstractInterval::from_i128(*val),
            RangeType::Any(lo, hi) => AbstractInterval { lo: *lo, hi: *hi },
        },
        None => AbstractInterval::top(prime),
    }
}

/// What a search worker reports.
pub enum SolverMsg {
    UpdateStats { trials: usize, unsat: usize, queue_len: usize },
    SolutionFound(AbstractTrace, usize),
    Finished,
}

/// The priority of a search node: the negated count of undecided
/// evaluations, and the depth.
pub type Potential = (i32, i32);

/// A node of the search: a trace and its depth.
#[derive(Clone, Debug, Hash, PartialEq, Eq)]
pub struct SearchNode {
    pub main_trace: AbstractTrace,
    pub depth: usize,
}

/// How a search ended.
#[derive(Clone, Copy, Debug, PartialEq, Eq, Structural)]
pub enum VerificationStatus {
    Verified,
    TimedOut,
    ResourceLimitReached,
    Interrupted,
}

/// The settings of a search.
#[derive(Clone, Debug)]
pub struct SearchConfig {
    pub num_workers: usize,
    pub time_out_ms: u64,
    pub minimum_num_taregt_cols: usize,
    pub max_expansions: usize,
    pub min_row_id: usize,
    pub max_row_id: usize,
    pub seed: u64,
    pub enable_heuristic: bool,
    pub enable_interval_refinement: bool,
}

impl Default for SearchConfig {
    fn default() -> (r: Self)
        ensures
            r.num_workers == 8,
            r.time_out_ms == 10000,
            r.minimum_num_taregt_cols == 0,
            r.max_expansions == 1000000000,
            r.min_row_id == 0,
            r.max_row_id == 0,
            r.seed == 41,
            r.enable_heuristic,
            r.enable_interval_refinement,
    {
        SearchConfig {
            num_workers: 8,
            time_out_ms: 10000,
            minimum_num_taregt_cols: 0,
            max_expansions: 1000000000,
            min_row_id: 0,
            max_row_id: 0,
            seed: 41,
            enable_heuristic: true,
            enable_interval_refinement: true,
        }
    }
}

/// A table's constraints with what the search needs to know of its columns.
#[derive(Clone)]
pub struct ConstraintInfo {
    pub constraints: ZEBRAConstraints,
    pub num_total_columns: usize,
    pub num_pv_columns: usize,
    pub output_columns: Vec<usize>,
    pub refinable_cols: Vec<usize>,
    pub range_types: HashMap<usize, RangeType>,
    pub prime: u32,
}

/// What becomes of a child of a search node, from its constraint answer and
/// its post-processing answer.
#[derive(Clone, Copy, Debug, PartialEq, Eq, Structural)]
pub enum ChildOutcome {
    Solution,
    Discarded,
    Queued(i32, i32),
}

/// A child is a solution when both answers are `True`, discarded when
/// either is `False`, and queued otherwise with priority `(-potential,
/// depth + 1)` (`(0, depth + 1)` without the heuristic).
pub open spec fn spec_child_outcome(res: MayBeFlag, post_res: MayBeFlag, pot: i32, depth: usize, enable_heuristic: bool) -> ChildOutcome {
    if res == MayBeFlag::True && post_res == MayBeFlag::True {
        ChildOutcome::Solution
    } else if res == MayBeFlag::False || post_res == MayBeFlag::False {
        ChildOutcome::Discarded
    } else if enable_heuristic {
        ChildOutcome::Queued((-pot) as i32, (depth + 1) as i32)
    } else {
        ChildOutcome::Queued(0, (depth + 1) as i32)
    }
}

/// Classifies a child of a search node (see `spec_child_outcome`).
pub fn child_outcome(res: MayBeFlag, post_res: MayBeFlag, pot: i32, depth: usize, enable_heuristic: bool) -> (r: ChildOutcome)
    requires
        pot > i32::MIN,
        depth < i32::MAX,
    ensures
        r == spec_child_outcome(res, post_res, pot, depth, enable_heuristic),
{
    match (res, post_res) {
        (MayBeFlag::True, MayBeFlag::True) => ChildOutcome::Solution,
        (MayBeFlag::False, _) | (_, MayBeFlag::False) => ChildOutcome::Discarded,
        _ => {
            let d = depth as i32 + 1;
            if enable_heuristic {
                ChildOutcome::Queued(-pot, d)
            } else {
                ChildOutcome::Queued(0, d)
            }
        },
    }
}

/// The constraint is surely zero in the field on row `i` of the trace.
pub open spec fn zero_at(tc: ZEBRASymbolicExpr, rows: Seq<Seq<AbstractInterval>>, public_vals: &[AbstractInterval], p: u32, i: int) -> bool {
    tc.value_of(row_env(rows, i, Some(public_vals), p)).spec_is_zero(p as int) == MayBeFlag::True
}

/// The constraint is surely zero in the field on every row of the trace.
pub open spec fn trivially_true(tc: ZEBRASymbolicExpr, rows: Seq<Seq<AbstractInterval>>, public_vals: &[AbstractInterval], p: u32) -> bool {
    forall|i: int| 0 <= i < rows.len() ==> #[trigger] zero_at(tc, rows, public_vals, p, i)
}

/// The constraint is surely zero on each row before row `i`.
#[verifier::opaque]
pub open spec fn zero_before(tc: ZEBRASymbolicExpr, rows: Seq<Seq<AbstractInterval>>, public_vals: &[AbstractInterval], p: u32, i: int) -> bool {
    forall|k: int| 0 <= k < i ==> #[trigger] zero_at(tc, rows, public_vals, p, k)
}

/// The constraint can be evaluated on row `i` and its value tested for zero.
pub open spec fn readable_at(tc: ZEBRASymbolicExpr, rows: Seq<Seq<AbstractInterval>>, public_vals: &[AbstractInterval], p: u32, i: int) -> bool {
    tc.evaluable(row_env(rows, i, Some(public_vals), p))
}

/// Whether the constraint is surely zero on every row of the trace, the rows
/// read in order until one is not.
pub fn is_constraint_trivially_true(tc: &ZEBRASymbolicExpr, trace: &AbstractTrace, public_vals: &[AbstractInterval], prime: u32) -> (r: bool)
    requires
        prime > 0,
        forall|i: int| 0 <= i < trace.data@.len() && zero_before(*tc, trace.rows(), public_vals, prime, i)
            ==> #[trigger] readable_at(*tc, trace.rows(), public_vals, prime, i),
    ensures
        r == trivially_true(*tc, trace.rows(), public_vals, prime),
{
    let num_steps = trace.data.len();
    let ghost rows = trace.rows();
    let mut i: usize = 0;
    proof {
        reveal(zero_before);
    }
    while i < num_steps
        invariant
            prime > 0,
            num_steps == trace.data@.len(),
            rows == trace.rows(),
            forall|i: int| 0 <= i < trace.data@.len() && zero_before(*tc, trace.rows(), public_vals, prime, i)
                ==> #[trigger] readable_at(*tc, trace.rows(), public_vals, prime, i),
            i <= num_steps,
            zero_before(*tc, rows, public_vals, prime, i as int),
        decreases num_steps - i,
    {
        let next: Option<&[AbstractInterval]> = if i + 1 < num_steps {
            Some(trace.data[i + 1].as_slice())
        } else {
            None
        };
        proof {
            assert(rows[i as int] == trace.data@[i as int]@);
            if i + 1 < num_steps {
                assert(rows[i as int + 1] == trace.data@[i as int + 1]@);
            }
            assert(crate::symbolic::make_env(trace.data@[i as int]@, next, Some(public_vals), i == 0, i < num_steps - 1, i == num_steps - 1, prime)
                == row_env(rows, i as int, Some(public_vals), prime));
            assert(readable_at(*tc, rows, public_vals, prime, i as int));
        }
        assert(zero_before(*tc, rows, public_vals, prime, i as int));
        let v = tc.eval(trace.data[i].as_slice(), next, Some(public_vals), i == 0, i < num_steps - 1, i == num_steps - 1, prime);
        if v.is_zero(prime) != MayBeFlag::True {
            assert(!zero_at(*tc, rows, public_vals, prime, i as int));
            return false;
        }
        proof {
            reveal(zero_before);
        }
        i += 1;
    }
    proof {
        reveal(zero_before);
    }
    true
}

// ----------------------------------------------------------------------
// preparing the constraints of a table
// ----------------------------------------------------------------------

/// The simplification state: the constraints kept so far, and whether the
/// previous constraint opened an is-zero gadget, a KoalaBear range check or
/// a BabyBear range check (whose second half is then dropped).
pub type SimplifyState = (Seq<ZEBRASymbolicExpr>, bool, bool, bool);

/// One constraint of the simplification: the first of two is-zero gadget
/// constraints is replaced by its two guarded constraints and the second
/// dropped; likewise the first of two range checks is replaced by its range
/// predicate; any other constraint is kept unless it follows an opened
/// gadget or check.
pub open spec fn simplify_step(st: SimplifyState, t: ZEBRASymbolicExpr, p: u32) -> SimplifyState {
    let (out, in_iz, in_kb, in_bb) = st;
    match iszero_parts(t, p) {
        Some((s, x, y)) => if in_iz {
            (out, false, in_kb, in_bb)
        } else {
            (out + spec_iszero_rewrite(s, x, y), true, in_kb, in_bb)
        },
        None => match word_range_parts(t, p, 13227174) {
            Some((s, w)) => if in_kb {
                (out, in_iz, false, in_bb)
            } else {
                (out.push(ZEBRASymbolicExpr::WhenNonZero(Box::new(s), Box::new(ZEBRASymbolicExpr::KoalaBearRange(Box::new(curr_word_value(w)))))), in_iz, true, in_bb)
            },
            None => match word_range_parts(t, p, 785099) {
                Some((s, w)) => if in_bb {
                    (out, in_iz, in_kb, false)
                } else {
                    (out.push(ZEBRASymbolicExpr::WhenNonZero(Box::new(s), Box::new(ZEBRASymbolicExpr::BabyBearRange(Box::new(curr_word_value(w)))))), in_iz, in_kb, true)
                },
                None => if !in_kb && !in_iz && !in_bb {
                    (out.push(t), in_iz, in_kb, in_bb)
                } else {
                    (out, in_iz, in_kb, in_bb)
                },
            },
        },
    }
}

pub open spec fn simplify_all(cs: Seq<ZEBRASymbolicExpr>, p: u32) -> SimplifyState
    decreases cs.len(),
{
    if cs.len() == 0 {
        (Seq::empty(), false, false, false)
    } else {
        simplify_step(simplify_all(cs.drop_last(), p), cs.last(), p)
    }
}

/// The cells `(0, column)` that the constraints read, on row 0, through
/// their additions, subtractions, products, negations, bitwise operators and
/// comparisons.
pub open spec fn used_pairs(cs: Seq<ZEBRASymbolicExpr>) -> Set<(usize, usize)>
    decreases cs.len(),
{
    if cs.len() == 0 {
        Set::empty()
    } else {
        used_pairs(cs.drop_last()).union(row_vars_of(0, cs.last()))
    }
}

/// The columns `j` below `k` that are neither multiplicities nor received
/// and whose cell `(0, j)` `used` holds, in increasing order.
pub open spec fn refinable_upto(k: nat, mult: Set<usize>, recv: Set<usize>, used: Set<(usize, usize)>) -> Seq<usize>
    decreases k,
{
    if k == 0 {
        Seq::empty()
    } else {
        let j = (k - 1) as usize;
        let prev = refinable_upto((k - 1) as nat, mult, recv, used);
        if !mult.contains(j) && !recv.contains(j) && used.contains((0usize, j)) {
            prev.push(j)
        } else {
            prev
        }
    }
}

/// The ranges: 16-bit for the 16-bit columns, else 8-bit for the 8-bit
/// columns, else boolean for the columns shown boolean.
pub open spec fn spec_range_types(bools: Set<usize>, u8_cols: Seq<usize>, u16_cols: Seq<usize>) -> Map<usize, RangeType> {
    Map::new(
        |k: usize| bools.contains(k) || u8_cols.contains(k) || u16_cols.contains(k),
        |k: usize| if u16_cols.contains(k) {
            RangeType::U16
        } else if u8_cols.contains(k) {
            RangeType::U8
        } else {
            RangeType::Bool
        },
    )
}

fn simplify_constraints_of(tv: &Vec<ZEBRASymbolicExpr>, prime: u32) -> (r: Vec<ZEBRASymbolicExpr>)
    requires
        prime > 0,
    ensures
        r@ == simplify_all(tv@, prime).0,
{
    let mut out: Vec<ZEBRASymbolicExpr> = Vec::new();
    let mut in_kb = false;
    let mut in_bb = false;
    let mut in_iz = false;
    let mut i: usize = 0;
    proof {
        assert(tv@.take(0) =~= Seq::<ZEBRASymbolicExpr>::empty());
    }
    while i < tv.len()
        invariant
            prime > 0,
            i <= tv@.len(),
            simplify_all(tv@.take(i as int), prime) == (out@, in_iz, in_kb, in_bb),
        decreases tv.len() - i,
    {
        proof {
            assert(tv@.take(i as int + 1).drop_last() =~= tv@.take(i as int));
            assert(tv@.take(i as int + 1).last() == tv@[i as int]);
        }
        let t = &tv[i];
        let ghost before = out@;
        if let Some(exprs) = is_iszero_operator(t, prime) {
            if in_iz {
                in_iz = false;
            } else {
                out.push(exprs[0].deep_copy());
                out.push(exprs[1].deep_copy());
                in_iz = true;
                proof {
                    assert(out@ =~= before + exprs@);
                }
            }
        } else {
            if let Some(expr) = is_koalabear_word_range(t, prime) {
                if in_kb {
                    in_kb = false;
                } else {
                    out.push(expr);
                    in_kb = true;
                }
            } else if let Some(expr) = is_babybear_word_range(t, prime) {
                if in_bb {
                    in_bb = false;
                } else {
                    out.push(expr);
                    in_bb = true;
                }
            } else {
                if !in_kb && !in_iz && !in_bb {
                    out.push(t.deep_copy());
                }
            }
        }
        i += 1;
    }
    proof {
        assert(tv@.take(tv@.len() as int) =~= tv@);
    }
    out
}

fn gather_used(cs: &Vec<ZEBRASymbolicExpr>, memo: &mut Vec<(usize, usize)>)
    requires
        old(memo)@.no_duplicates(),
    ensures
        final(memo)@.no_duplicates(),
        final(memo)@.to_set() == old(memo)@.to_set().union(used_pairs(cs@)),
{
    let mut i: usize = 0;
    proof {
        assert(cs@.take(0) =~= Seq::<ZEBRASymbolicExpr>::empty());
        assert(old(memo)@.to_set().union(used_pairs(cs@.take(0))) =~= old(memo)@.to_set());
    }
    while i < cs.len()
        invariant
            i <= cs@.len(),
            memo@.no_duplicates(),
            memo@.to_set() == old(memo)@.to_set().union(used_pairs(cs@.take(i as int))),
        decreases cs.len() - i,
    {
        gather_vars(0, &cs[i], memo);
        proof {
            assert(cs@.take(i as int + 1).drop_last() =~= cs@.take(i as int));
            assert(cs@.take(i as int + 1).last() == cs@[i as int]);
            assert(old(memo)@.to_set().union(used_pairs(cs@.take(i as int + 1))) =~= old(memo)@.to_set().union(used_pairs(cs@.take(i as int))).union(row_vars_of(0, cs@[i as int])));
        }
        i += 1;
    }
    proof {
        assert(cs@.take(cs@.len() as int) =~= cs@);
    }
}

fn pair_in(memo: &Vec<(usize, usize)>, c: usize) -> (r: bool)
    ensures
        r == memo@.to_set().contains((0usize, c)),
{
    let mut i: usize = 0;
    while i < memo.len()
        invariant
            i <= memo.len(),
            forall|j: int| 0 <= j < i ==> memo@[j] != (0usize, c),
        decreases memo.len() - i,
    {
        if memo[i].0 == 0 && memo[i].1 == c {
            proof {
                assert(memo@[i as int] == (0usize, c));
            }
            return true;
        }
        i += 1;
    }
    false
}

/// Prepares a table's constraints for the search: simplifies them when asked
/// (see `simplify_step`), then returns the refinable columns (below
/// `num_cols`, neither multiplicities nor received, read by the constraints
/// or the lookups, in increasing order) and the ranges (see
/// `spec_range_types`) of the boolean columns of the constraints and of the
/// 8- and 16-bit columns.
pub fn prepare_constraints_and_range_type(
    num_cols: usize,
    u8_cols: &Vec<usize>,
    u16_cols: &Vec<usize>,
    multiplicities: &HashSet<usize>,
    received_vars_from_cpu: &HashSet<usize>,
    tv_constraints: &mut Vec<ZEBRASymbolicExpr>,
    lookup_symbolic_constraints: &Vec<ZEBRASymbolicExpr>,
    prime: u32,
    simplify_constraints: bool,
) -> (r: (Vec<usize>, HashMap<usize, RangeType>))
    requires
        prime > 0,
    ensures
        final(tv_constraints)@ == if simplify_constraints {
            simplify_all(old(tv_constraints)@, prime).0
        } else {
            old(tv_constraints)@
        },
        r.0@ == refinable_upto(
            num_cols as nat,
            multiplicities@,
            received_vars_from_cpu@,
            used_pairs(final(tv_constraints)@).union(used_pairs(lookup_symbolic_constraints@)),
        ),
        r.1@ == spec_range_types(boolean_vars_all(final(tv_constraints)@, multiplicities@), u8_cols@, u16_cols@),
{
    if simplify_constraints {
        let new_tv = simplify_constraints_of(tv_constraints, prime);
        *tv_constraints = new_tv;
    }
    let mut used_vars: Vec<(usize, usize)> = Vec::new();
    proof {
        assert(used_vars@.to_set() =~= Set::<(usize, usize)>::empty());
    }
    gather_used(tv_constraints, &mut used_vars);
    gather_used(lookup_symbolic_constraints, &mut used_vars);
    let ghost used = used_pairs(tv_constraints@).union(used_pairs(lookup_symbolic_constraints@));
    proof {
        assert(used_vars@.to_set() =~= used);
    }
    let mut refinable_cols: Vec<usize> = Vec::new();
    let mut c: usize = 0;
    while c < num_cols
        invariant
            c <= num_cols,
            used_vars@.to_set() == used,
            refinable_cols@ == refinable_upto(c as nat, multiplicities@, received_vars_from_cpu@, used),
        decreases num_cols - c,
    {
        if !multiplicities.contains(&c) && !received_vars_from_cpu.contains(&c) && pair_in(&used_vars, c) {
            refinable_cols.push(c);
        }
        c += 1;
    }
    let potential_boolean_vars = gather_boolean_variables(tv_constraints.as_slice(), multiplicities);
    let ghost bools = boolean_vars_all(tv_constraints@, multiplicities@);
    let mut range_types: HashMap<usize, RangeType> = HashMap::new();
    let mut k: usize = 0;
    while k < potential_boolean_vars.len()
        invariant
            k <= potential_boolean_vars@.len(),
            potential_boolean_vars@.to_set() == bools,
            range_types@ == Map::new(|x: usize| potential_boolean_vars@.take(k as int).contains(x), |x: usize| RangeType::Bool),
        decreases potential_boolean_vars.len() - k,
    {
        range_types.insert(potential_boolean_vars[k], RangeType::Bool);
        proof {
            let s = potential_boolean_vars@;
            assert(s.take(k as int + 1) =~= s.take(k as int).push(s[k as int]));
            assert forall|x: usize| #[trigger] s.take(k as int + 1).contains(x) == (s.take(k as int).contains(x) || x == s[k as int]) by {
                vstd::seq_lib::lemma_seq_contains_after_push(s.take(k as int), s[k as int], x);
            }
            assert(range_types@ =~= Map::new(|x: usize| potential_boolean_vars@.take(k as int + 1).contains(x), |x: usize| RangeType::Bool));
        }
        k += 1;
    }
    proof {
        assert(potential_boolean_vars@.take(potential_boolean_vars@.len() as int) =~= potential_boolean_vars@);
    }
    let ghost m8 = u8_cols@;
    let mut k: usize = 0;
    while k < u8_cols.len()
        invariant
            k <= u8_cols@.len(),
            potential_boolean_vars@.to_set() == bools,
            range_types@ == Map::new(
                |x: usize| potential_boolean_vars@.contains(x) || u8_cols@.take(k as int).contains(x),
                |x: usize| if u8_cols@.take(k as int).contains(x) {
                    RangeType::U8
                } else {
                    RangeType::Bool
                },
            ),
        decreases u8_cols.len() - k,
    {
        range_types.insert(u8_cols[k], RangeType::U8);
        proof {
            let s = u8_cols@;
            assert(s.take(k as int + 1) =~= s.take(k as int).push(s[k as int]));
            assert forall|x: usize| #[trigger] s.take(k as int + 1).contains(x) == (s.take(k as int).contains(x) || x == s[k as int]) by {
                vstd::seq_lib::lemma_seq_contains_after_push(s.take(k as int), s[k as int], x);
            }
            assert(range_types@ =~= Map::new(
                |x: usize| potential_boolean_vars@.contains(x) || u8_cols@.take(k as int + 1).contains(x),
                |x: usize| if u8_cols@.take(k as int + 1).contains(x) {
                    RangeType::U8
                } else {
                    RangeType::Bool
                },
            ));
        }
        k += 1;
    }
    proof {
        assert(u8_cols@.take(u8_cols@.len() as int) =~= u8_cols@);
    }
    let mut k: usize = 0;
    while k < u16_cols.len()
        invariant
            k <= u16_cols@.len(),
            potential_boolean_vars@.to_set() == bools,
            range_types@ == Map::new(
                |x: usize| potential_boolean_vars@.contains(x) || u8_cols@.contains(x) || u16_cols@.take(k as int).contains(x),
                |x: usize| if u16_cols@.take(k as int).contains(x) {
                    RangeType::U16
                } else if u8_cols@.contains(x) {
                    RangeType::U8
                } else {
                    RangeType::Bool
                },
            ),
        decreases u16_cols.len() - k,
    {
        range_types.insert(u16_cols[k], RangeType::U16);
        proof {
            let s = u16_cols@;
            assert(s.take(k as int + 1) =~= s.take(k as int).push(s[k as int]));
            assert forall|x: usize| #[trigger] s.take(k as int + 1).contains(x) == (s.take(k as int).contains(x) || x == s[k as int]) by {
                vstd::seq_lib::lemma_seq_contains_after_push(s.take(k as int), s[k as int], x);
            }
            assert(range_types@ =~= Map::new(
                |x: usize| potential_boolean_vars@.contains(x) || u8_cols@.contains(x) || u16_cols@.take(k as int + 1).contains(x),
                |x: usize| if u16_cols@.take(k as int + 1).contains(x) {
                    RangeType::U16
                } else if u8_cols@.contains(x) {
                    RangeType::U8
                } else {
                    RangeType::Bool
                },
            ));
        }
        k += 1;
    }
    proof {
        assert(u16_cols@.take(u16_cols@.len() as int) =~= u16_cols@);
        assert(range_types@ =~= spec_range_types(bools, u8_cols@, u16_cols@));
    }
    (refinable_cols, range_types)
}

/// A program-counter refinement that changes nothing.
pub fn dummy_program_counter_refine_fn(_abs_main_trace_data: &mut Vec<Vec<AbstractInterval>>, _program_len: usize, _i: usize, _j: usize)
    ensures
        final(_abs_main_trace_data)@ == old(_abs_main_trace_data)@,
{
}

/// A post-processing that changes nothing and answers `True`.
pub fn nop_post_process(_main_trace: &mut AbstractTrace, _prime: u32) -> (r: MayBeFlag)
    ensures
        r == MayBeFlag::True,
        *final(_main_trace) == *old(_main_trace),
{
    MayBeFlag::True
}

/// A table derivation that derives no row.
pub fn dummy_table_deriver(
    _cpu_main_trace: &Vec<Vec<AbstractInterval>>,
    _range_types: &HashMap<usize, RangeType>,
    _prime: u32,
) -> (r: Vec<Vec<AbstractInterval>>)
    ensures
        r@.len() == 0,
{
    Vec::new()
}

// ----------------------------------------------------------------------
// boolean targets of a search
// ----------------------------------------------------------------------

/// The column that the AIR constraint `c` makes boolean on row `i`: `c` is
/// `l * r`, `l` is surely non-zero on that row (public values from
/// `public_row`), and `r` is the boolean constraint of a column.
pub open spec fn cond_bool_hit(c: ZEBRASymbolicExpr, rows: Seq<Seq<AbstractInterval>>, public_row: &[AbstractInterval], i: int, p: u32) -> Option<usize> {
    match c {
        ZEBRASymbolicExpr::Mul(l, r) => if l.value_of(row_env(rows, i, Some(public_row), p)).spec_is_non_zero(p as int)
            == MayBeFlag::True {
            spec_boolean_constraint(*r)
        } else {
            None
        },
        _ => None,
    }
}

/// The left factor of the AIR constraint `c`, when it is a product, can be
/// evaluated on row `i` and tested.
pub open spec fn cond_bool_readable(c: ZEBRASymbolicExpr, rows: Seq<Seq<AbstractInterval>>, public_row: &[AbstractInterval], i: int, p: u32) -> bool {
    match c {
        ZEBRASymbolicExpr::Mul(l, _) => {
            l.evaluable(row_env(rows, i, Some(public_row), p))
        },
        _ => true,
    }
}

pub open spec fn opt_col(o: Option<usize>) -> Seq<usize> {
    match o {
        Some(j) => seq![j],
        None => Seq::empty(),
    }
}

/// The columns `c` makes boolean on the rows `min..min + k`, row by row.
pub open spec fn cond_bool_rows(c: ZEBRASymbolicExpr, rows: Seq<Seq<AbstractInterval>>, public_row: &[AbstractInterval], min: int, k: int, p: u32) -> Seq<usize>
    decreases k,
{
    if k <= 0 {
        Seq::empty()
    } else {
        cond_bool_rows(c, rows, public_row, min, k - 1, p) + opt_col(cond_bool_hit(c, rows, public_row, min + k - 1, p))
    }
}

/// The columns the first `k` AIR constraints make boolean on the rows
/// `min..=max`, constraint by constraint.
pub open spec fn cond_bool_hits(air: Seq<ZEBRASymbolicExpr>, k: int, rows: Seq<Seq<AbstractInterval>>, public_row: &[AbstractInterval], min: int, max: int, p: u32) -> Seq<usize>
    decreases k,
{
    if k <= 0 {
        Seq::empty()
    } else {
        cond_bool_hits(air, k - 1, rows, public_row, min, max, p) + cond_bool_rows(air[k - 1], rows, public_row, min, max - min + 1, p)
    }
}

/// The columns of `cols` whose range is boolean, in order.
pub open spec fn bool_cols(cols: Seq<usize>, rt: Map<usize, RangeType>) -> Seq<usize>
    decreases cols.len(),
{
    if cols.len() == 0 {
        Seq::empty()
    } else {
        bool_cols(cols.drop_last(), rt) + if rt.contains_key(cols.last()) && rt[cols.last()] == RangeType::Bool {
            seq![cols.last()]
        } else {
            Seq::empty()
        }
    }
}

/// `v` followed by the columns of `hits` that are not yet in it, in order.
pub open spec fn add_new_cols(v: Seq<usize>, hits: Seq<usize>) -> Seq<usize>
    decreases hits.len(),
{
    if hits.len() == 0 {
        v
    } else {
        let prev = add_new_cols(v, hits.drop_last());
        if prev.contains(hits.last()) {
            prev
        } else {
            prev.push(hits.last())
        }
    }
}

/// The boolean targets of a search: the refinable columns of boolean range,
/// then each column that a conditional boolean constraint makes boolean on
/// one of the rows `min..=max`, once.
pub open spec fn bool_targets(
    rows: Seq<Seq<AbstractInterval>>,
    public_row: &[AbstractInterval],
    air: Seq<ZEBRASymbolicExpr>,
    refinable: Seq<usize>,
    rt: Map<usize, RangeType>,
    min: int,
    max: int,
    p: u32,
) -> Seq<usize> {
    add_new_cols(bool_cols(refinable, rt), cond_bool_hits(air, air.len() as int, rows, public_row, min, max, p))
}

/// A cell widened to `[0, 1]` when `w` holds and it holds more than one value.
pub open spec fn widen_cell(x: AbstractInterval, w: bool) -> AbstractInterval {
    if w && x.lo != x.hi {
        AbstractInterval { lo: 0, hi: 1 }
    } else {
        x
    }
}

/// Column `j` is one of `cols`.
pub open spec fn col_in(cols: Seq<usize>, j: int) -> bool {
    exists|k: int| 0 <= k < cols.len() && cols[k] as int == j
}

/// The table with the cells of the columns `cols` on the rows `min..=max`
/// widened (`widen_cell`).
pub open spec fn widen_bool(rows: Seq<Seq<AbstractInterval>>, cols: Seq<usize>, min: int, max: int) -> Seq<Seq<AbstractInterval>> {
    Seq::new(rows.len(), |i: int| Seq::new(rows[i].len(), |j: int| widen_cell(rows[i][j], min <= i <= max && col_in(cols, j))))
}

fn has_col(v: &Vec<usize>, x: usize) -> (r: bool)
    ensures
        r == v@.contains(x),
{
    let mut i: usize = 0;
    while i < v.len()
        invariant
            i <= v.len(),
            forall|j: int| 0 <= j < i ==> v@[j] != x,
        decreases v.len() - i,
    {
        if v[i] == x {
            return true;
        }
        i += 1;
    }
    false
}

proof fn lemma_add_new_prefix(v: Seq<usize>, hits: Seq<usize>)
    ensures
        add_new_cols(v, hits).len() >= v.len(),
        add_new_cols(v, hits).subrange(0, v.len() as int) == v,
    decreases hits.len(),
{
    if hits.len() > 0 {
        lemma_add_new_prefix(v, hits.drop_last());
        let prev = add_new_cols(v, hits.drop_last());
        assert(prev.push(hits.last()).subrange(0, v.len() as int) =~= prev.subrange(0, v.len() as int));
    }
}

/// Preprocessing of a search: the boolean targets (`bool_targets`), and the
/// cells of the columns added by conditional boolean constraints, on the
/// rows `min_row..=max_row`, widened to `[0, 1]` where they hold more than
/// one value. The conditional constraints are read on the trace as given.
pub fn conditional_bool_targets(
    trace: &mut AbstractTrace,
    public_row: &[AbstractInterval],
    air: &Vec<ZEBRASymbolicExpr>,
    refinable_cols: &Vec<usize>,
    range_types: &HashMap<usize, RangeType>,
    min_row: usize,
    max_row: usize,
    prime: u32,
) -> (r: Vec<usize>)
    requires
        prime > 0,
        min_row <= max_row < old(trace).data@.len(),
        forall|k: int, i: int|
            0 <= k < air@.len() && min_row <= i <= max_row ==> #[trigger] cond_bool_readable(air@[k], old(trace).rows(), public_row, i, prime),
        ({
            let t = bool_targets(old(trace).rows(), public_row, air@, refinable_cols@, range_types@, min_row as int, max_row as int, prime);
            let b = bool_cols(refinable_cols@, range_types@);
            forall|q: int, i: int| b.len() <= q < t.len() && min_row <= i <= max_row ==> #[trigger] t[q] < (#[trigger] old(trace).rows()[i]).len()
        }),
    ensures
        r@ == bool_targets(old(trace).rows(), public_row, air@, refinable_cols@, range_types@, min_row as int, max_row as int, prime),
        final(trace).rows() == widen_bool(
            old(trace).rows(),
            r@.subrange(bool_cols(refinable_cols@, range_types@).len() as int, r@.len() as int),
            min_row as int,
            max_row as int,
        ),
        final(trace).singleton_positions@ == old(trace).singleton_positions@,
{
    let ghost rows = trace.rows();
    let n = trace.data.len();
    let ghost mn = min_row as int;
    let ghost mx = max_row as int;
    // the columns made boolean by the conditional constraints
    let mut hits: Vec<usize> = Vec::new();
    let mut k: usize = 0;
    while k < air.len()
        invariant
            prime > 0,
            n == trace.data@.len(),
            rows == trace.rows(),
            rows == old(trace).rows(),
            trace.singleton_positions@ == old(trace).singleton_positions@,
            mn == min_row as int,
            mx == max_row as int,
            min_row <= max_row < n,
            k <= air@.len(),
            forall|k: int, i: int|
                0 <= k < air@.len() && min_row <= i <= max_row ==> #[trigger] cond_bool_readable(air@[k], rows, public_row, i, prime),
            hits@ == cond_bool_hits(air@, k as int, rows, public_row, mn, mx, prime),
        decreases air@.len() - k,
    {
        let c = &air[k];
        let ghost before = hits@;
        match c {
            ZEBRASymbolicExpr::Mul(l, rr) => {
                let b = is_boolean_constraint(rr);
                let mut i: usize = min_row;
                assert(hits@ =~= before + cond_bool_rows(*c, rows, public_row, mn, 0, prime));
                while i <= max_row
                    invariant
                        prime > 0,
                        n == trace.data@.len(),
                        rows == trace.rows(),
                        mn == min_row as int,
                        min_row <= i <= max_row + 1,
                        max_row < n,
                        *c == air@[k as int],
                        *c == ZEBRASymbolicExpr::Mul(*l, *rr),
                        b == spec_boolean_constraint(**rr),
                        forall|i: int| min_row <= i <= max_row ==> #[trigger] cond_bool_readable(*c, rows, public_row, i, prime),
                        hits@ == before + cond_bool_rows(*c, rows, public_row, mn, i - mn, prime),
                    decreases max_row + 1 - i,
                {
                    let next: Option<&[AbstractInterval]> = if i + 1 < n {
                        Some(trace.data[i + 1].as_slice())
                    } else {
                        None
                    };
                    proof {
                        assert(cond_bool_readable(*c, rows, public_row, i as int, prime));
                        assert(rows[i as int] == trace.data@[i as int]@);
                        if i + 1 < n {
                            assert(rows[i as int + 1] == trace.data@[i as int + 1]@);
                        }
                        assert(crate::symbolic::make_env(trace.data@[i as int]@, next, Some(public_row), i == 0, i < n - 1, i == n - 1, prime)
                            == row_env(rows, i as int, Some(public_row), prime));
                    }
                    let lv = l.eval(trace.data[i].as_slice(), next, Some(public_row), i == 0, i < n - 1, i == n - 1, prime);
                    let ghost prev = hits@;
                    if lv.is_non_zero(prime) == MayBeFlag::True {
                        match b {
                            Some(j) => {
                                hits.push(j);
                            },
                            None => {},
                        }
                    }
                    proof {
                        assert(cond_bool_rows(*c, rows, public_row, mn, i + 1 - mn, prime)
                            == cond_bool_rows(*c, rows, public_row, mn, i - mn, prime) + opt_col(cond_bool_hit(*c, rows, public_row, i as int, prime)));
                        assert(hits@ =~= before + cond_bool_rows(*c, rows, public_row, mn, i + 1 - mn, prime));
                    }
                    i = i + 1;
                }
                assert(hits@ =~= cond_bool_hits(air@, k + 1, rows, public_row, mn, mx, prime));
            },
            _ => {
                proof {
                    let cr = cond_bool_rows(*c, rows, public_row, mn, mx - mn + 1, prime);
                    assert forall|m: int| 0 <= m <= mx - mn + 1 implies cond_bool_rows(*c, rows, public_row, mn, m, prime) =~= Seq::<usize>::empty() by {
                        lemma_no_hits(*c, rows, public_row, mn, m, prime);
                    }
                    assert(hits@ =~= cond_bool_hits(air@, k + 1, rows, public_row, mn, mx, prime));
                }
            },
        }
        k = k + 1;
    }
    // the refinable columns of boolean range
    let mut out: Vec<usize> = Vec::new();
    let mut q: usize = 0;
    while q < refinable_cols.len()
        invariant
            rows == trace.rows(),
            rows == old(trace).rows(),
            trace.singleton_positions@ == old(trace).singleton_positions@,
            q <= refinable_cols@.len(),
            out@ == bool_cols(refinable_cols@.take(q as int), range_types@),
        decreases refinable_cols@.len() - q,
    {
        let c = refinable_cols[q];
        proof {
            assert(refinable_cols@.take(q as int + 1).drop_last() =~= refinable_cols@.take(q as int));
            assert(refinable_cols@.take(q as int + 1).last() == c);
        }
        match range_types.get(&c) {
            Some(t) => {
                match t {
                    RangeType::Bool => {
                        out.push(c);
                    },
                    _ => {},
                }
            },
            None => {},
        }
        q = q + 1;
    }
    proof {
        assert(refinable_cols@.take(refinable_cols@.len() as int) =~= refinable_cols@);
    }
    let plen = out.len();
    let ghost b = out@;
    // the conditional columns, each once
    let mut h: usize = 0;
    while h < hits.len()
        invariant
            rows == trace.rows(),
            rows == old(trace).rows(),
            trace.singleton_positions@ == old(trace).singleton_positions@,
            h <= hits@.len(),
            out@ == add_new_cols(b, hits@.take(h as int)),
        decreases hits@.len() - h,
    {
        let x = hits[h];
        proof {
            assert(hits@.take(h as int + 1).drop_last() =~= hits@.take(h as int));
            assert(hits@.take(h as int + 1).last() == x);
        }
        if !has_col(&out, x) {
            out.push(x);
        }
        h = h + 1;
    }
    proof {
        assert(hits@.take(hits@.len() as int) =~= hits@);
        lemma_add_new_prefix(b, hits@);
    }
    let ghost t = out@;
    assert(t == bool_targets(rows, public_row, air@, refinable_cols@, range_types@, mn, mx, prime));
    // widening
    let mut q: usize = plen;
    assert(trace.rows() =~= widen_bool(rows, t.subrange(plen as int, plen as int), mn, mx)) by {
        assert forall|a: int| 0 <= a < rows.len() implies trace.rows()[a] =~= widen_bool(rows, t.subrange(plen as int, plen as int), mn, mx)[a] by {
        }
    }
    while q < out.len()
        invariant
            plen <= q <= out@.len(),
            out@ == t,
            mn == min_row as int,
            mx == max_row as int,
            rows == old(trace).rows(),
            b.len() == plen,
            min_row <= max_row < n,
            n == trace.data@.len(),
            n == rows.len(),
            forall|q: int, i: int| plen <= q < t.len() && min_row <= i <= max_row ==> #[trigger] t[q] < (#[trigger] rows[i]).len(),
            trace.rows() == widen_bool(rows, t.subrange(plen as int, q as int), mn, mx),
            trace.singleton_positions@ == old(trace).singleton_positions@,
        decreases out@.len() - q,
    {
        let col = out[q];
        let ghost done = t.subrange(plen as int, q as int);
        let mut i: usize = min_row;
        proof {
            let w0 = Seq::new(
                rows.len(),
                |a: int| Seq::new(
                    rows[a].len(),
                    |j: int| widen_cell(rows[a][j], mn <= a <= mx && (col_in(done, j) || (j == col && a < min_row))),
                ),
            );
            assert forall|a: int| 0 <= a < rows.len() implies trace.rows()[a] =~= w0[a] by {
                assert forall|j: int| 0 <= j < rows[a].len() implies trace.rows()[a][j] == w0[a][j] by {
                    assert(trace.rows()[a][j] == widen_bool(rows, done, mn, mx)[a][j]);
                }
            }
            assert(trace.rows() =~= w0);
        }
        while i <= max_row
            invariant
                plen <= q < t.len(),
                col == t[q as int],
                mn == min_row as int,
                mx == max_row as int,
                done == t.subrange(plen as int, q as int),
                min_row <= i <= max_row + 1,
                max_row < n,
                n == trace.data@.len(),
                n == rows.len(),
                forall|i: int| min_row <= i <= max_row ==> #[trigger] rows[i].len() > col,
                trace.rows() == Seq::new(
                    rows.len(),
                    |a: int| Seq::new(
                        rows[a].len(),
                        |j: int| widen_cell(rows[a][j], mn <= a <= mx && (col_in(done, j) || (j == col && a < i))),
                    ),
                ),
                trace.singleton_positions@ == old(trace).singleton_positions@,
            decreases max_row + 1 - i,
        {
            let ghost before = trace.rows();
            assert(col < rows[i as int].len());
            assert(before[i as int].len() == rows[i as int].len());
            assert(trace.data@[i as int]@ == before[i as int]);
            let cell = trace.data[i][col];
            if cell.lo != cell.hi {
                trace.set_cell(i, col, AbstractInterval::bool());
            }
            proof {
                assert(trace.rows() =~= Seq::new(
                    rows.len(),
                    |a: int| Seq::new(
                        rows[a].len(),
                        |j: int| widen_cell(rows[a][j], mn <= a <= mx && (col_in(done, j) || (j == col && a < i + 1))),
                    ),
                )) by {
                    assert forall|a: int| 0 <= a < rows.len() implies trace.rows()[a] =~= Seq::new(
                        rows[a].len(),
                        |j: int| widen_cell(rows[a][j], mn <= a <= mx && (col_in(done, j) || (j == col && a < i + 1))),
                    ) by {
                    }
                }
            }
            i = i + 1;
        }
        proof {
            let nd = t.subrange(plen as int, q as int + 1);
            assert(nd =~= done.push(col));
            assert forall|j: int| #[trigger] col_in(nd, j) <==> (col_in(done, j) || j == col) by {
                if col_in(nd, j) {
                    let m = choose|m: int| 0 <= m < nd.len() && nd[m] as int == j;
                    if m < done.len() {
                        assert(done[m] == nd[m]);
                    }
                }
                if col_in(done, j) {
                    let m = choose|m: int| 0 <= m < done.len() && done[m] as int == j;
                    assert(nd[m] == done[m]);
                }
                if j == col {
                    assert(nd[done.len() as int] == col);
                }
            }
            assert(trace.rows() =~= widen_bool(rows, nd, mn, mx)) by {
                assert forall|a: int| 0 <= a < rows.len() implies trace.rows()[a] =~= widen_bool(rows, nd, mn, mx)[a] by {
                    assert forall|j: int| 0 <= j < rows[a].len() implies trace.rows()[a][j] == widen_bool(rows, nd, mn, mx)[a][j] by {
                        assert(col_in(nd, j) <==> (col_in(done, j) || j == col));
                    }
                }
            }
        }
        q = q + 1;
    }
    out
}

proof fn lemma_no_hits(c: ZEBRASymbolicExpr, rows: Seq<Seq<AbstractInterval>>, public_row: &[AbstractInterval], min: int, k: int, p: u32)
    requires
        !(c is Mul),
    ensures
        cond_bool_rows(c, rows, public_row, min, k, p) =~= Seq::<usize>::empty(),
    decreases k,
{
    if k > 0 {
        lemma_no_hits(c, rows, public_row, min, k - 1, p);
    }
}

} // verus!
