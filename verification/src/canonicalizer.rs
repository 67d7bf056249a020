use vstd::prelude::*;

use crate::interval::{AbstractInterval, MayBeFlag};
use crate::patterns::GeneralLookupInfo;
use crate::symbolic::{EvalEnv, ZEBRASymbolicExpr};
use crate::text::texts;
use crate::trace::AbstractTrace;
use crate::ui::{alu_record, columns_in_row, memory_columns_ok, memory_row_record};
use crate::utils::PrettySet;

verus! {

/// Row `i` of `n` read on its own: no next row and no public values.
pub open spec fn lone_row_env(row: Seq<AbstractInterval>, p: u32, n: int, i: int) -> EvalEnv {
    EvalEnv {
        curr: row,
        next: None,
        public: None,
        is_first_row: i == 0,
        is_transition: i < n - 1,
        is_last_row: i == n - 1,
        prime: p,
    }
}

/// The test `e` of a real row may hold: its value is not surely zero.
pub open spec fn real_test_open(e: ZEBRASymbolicExpr, env: EvalEnv) -> bool {
    e.value_of(env).spec_is_zero(env.prime as int) != MayBeFlag::True
}

/// One of the first `k` tests may hold.
pub open spec fn any_test_open(tests: Seq<ZEBRASymbolicExpr>, env: EvalEnv, k: nat) -> bool
    decreases k,
{
    if k == 0 {
        false
    } else {
        any_test_open(tests, env, (k - 1) as nat) || real_test_open(tests[k - 1], env)
    }
}

/// The tests are read in order until one may hold, and each test read can
/// be evaluated and its value tested for zero.
pub open spec fn tests_readable(tests: Seq<ZEBRASymbolicExpr>, env: EvalEnv, k: nat) -> bool
    decreases k,
{
    if k == 0 {
        true
    } else {
        &&& tests_readable(tests, env, (k - 1) as nat)
        &&& (any_test_open(tests, env, (k - 1) as nat) || tests[k - 1].evaluable(env))
    }
}

/// Row `i` of a run of `n` rows may be a real row: one of the real-row tests
/// may hold on it, read without public values.
pub open spec fn maybe_real(row: Seq<AbstractInterval>, info: GeneralLookupInfo, p: u32, n: int, i: int) -> bool {
    any_test_open(info.is_real@, lone_row_env(row, p, n, i), info.is_real@.len())
}

/// The real-row tests can be read on row `i` of a run of `n` rows.
pub open spec fn real_tests_readable(
    row: Seq<AbstractInterval>,
    info: GeneralLookupInfo,
    p: u32,
    n: int,
    i: int,
) -> bool {
    tests_readable(info.is_real@, lone_row_env(row, p, n, i), info.is_real@.len())
}

/// Whether row `i` of a run of `n` rows may be a real row (see `maybe_real`).
pub fn is_maybe_real_wo_pubval(
    row: &Vec<AbstractInterval>,
    info: &GeneralLookupInfo,
    p: u32,
    n: usize,
    i: usize,
) -> (r: bool)
    requires
        p > 0,
        n > 0,
        real_tests_readable(row@, *info, p, n as int, i as int),
    ensures
        r == maybe_real(row@, *info, p, n as int, i as int),
{
    let ghost env = lone_row_env(row@, p, n as int, i as int);
    let ghost tests = info.is_real@;
    let mut k: usize = 0;
    while k < info.is_real.len()
        invariant
            p > 0,
            n > 0,
            env == lone_row_env(row@, p, n as int, i as int),
            tests == info.is_real@,
            k <= tests.len(),
            tests_readable(tests, env, tests.len()),
            !any_test_open(tests, env, k as nat),
        decreases tests.len() - k,
    {
        proof {
            lemma_readable_prefix(tests, env, (k + 1) as nat, tests.len());
        }
        let v = info.is_real[k].eval(row.as_slice(), None, None, i == 0, i < n - 1, i == n - 1, p);
        if v.is_zero(p) != MayBeFlag::True {
            assert(any_test_open(tests, env, (k + 1) as nat));
            proof {
                lemma_open_prefix(tests, env, (k + 1) as nat, tests.len());
            }
            return true;
        }
        k = k + 1;
    }
    false
}

proof fn lemma_readable_prefix(tests: Seq<ZEBRASymbolicExpr>, env: EvalEnv, j: nat, k: nat)
    requires
        j <= k,
        tests_readable(tests, env, k),
    ensures
        tests_readable(tests, env, j),
    decreases k - j,
{
    if j < k {
        lemma_readable_prefix(tests, env, j, (k - 1) as nat);
    }
}

proof fn lemma_open_prefix(tests: Seq<ZEBRASymbolicExpr>, env: EvalEnv, j: nat, k: nat)
    requires
        j <= k,
        any_test_open(tests, env, j),
    ensures
        any_test_open(tests, env, k),
    decreases k - j,
{
    if j < k {
        lemma_open_prefix(tests, env, j, (k - 1) as nat);
    }
}

/// The rows of the trace may be read by the real-row tests.
pub open spec fn trace_tests_readable(trace: AbstractTrace, info: GeneralLookupInfo, p: u32) -> bool {
    forall|i: int|
        0 <= i < trace.data@.len() ==> #[trigger] real_tests_readable(
            trace.data@[i]@,
            info,
            p,
            trace.data@.len() as int,
            i,
        )
}

/// Some row of the trace may be a real row.
pub open spec fn some_row_maybe_real(trace: AbstractTrace, info: GeneralLookupInfo, p: u32) -> bool {
    exists|i: int|
        0 <= i < trace.data@.len() && #[trigger] maybe_real(
            trace.data@[i]@,
            info,
            p,
            trace.data@.len() as int,
            i,
        )
}

/// Adds `s` to the texts of `v` unless one of them is already `s`.
fn add_text(v: &mut Vec<String>, s: String)
    requires
        texts(old(v)@).no_duplicates(),
    ensures
        texts(final(v)@).no_duplicates(),
        texts(final(v)@).to_set() == texts(old(v)@).to_set().insert(s@),
{
    let mut k: usize = 0;
    while k < v.len()
        invariant
            k <= v@.len(),
            v@ == old(v)@,
            texts(v@).no_duplicates(),
            forall|j: int| 0 <= j < k ==> #[trigger] v@[j]@ != s@,
        decreases v@.len() - k,
    {
        if v[k] == s {
            proof {
                assert(texts(v@)[k as int] == s@);
                assert(texts(v@).to_set().insert(s@) =~= texts(v@).to_set());
            }
            return;
        }
        k = k + 1;
    }
    let ghost before = v@;
    v.push(s);
    proof {
        assert(texts(v@) =~= texts(before).push(s@));
        assert(!texts(before).contains(s@)) by {
            if texts(before).contains(s@) {
                let j = choose|j: int| 0 <= j < texts(before).len() && texts(before)[j] == s@;
                assert(before[j]@ == s@);
            }
        }
        texts(before).lemma_push_to_set_commute(s@);
        assert forall|a: int, b: int| 0 <= a < b < texts(v@).len() implies texts(v@)[a] != texts(v@)[b] by {
            if b == before.len() {
                assert(texts(v@)[a] == texts(before)[a]);
            } else {
                assert(texts(before)[a] != texts(before)[b]);
            }
        }
    }
}

/// The records of an ALU run, each once: the record of the first row
/// (`alu_record`) when some row may be a real row, else none.
pub fn generate_alu_final_checker(
    general_lookup_info: &GeneralLookupInfo,
    trace: &AbstractTrace,
    prime: u32,
) -> (r: PrettySet)
    requires
        prime > 0,
        trace.data@.len() > 0,
        columns_in_row(*trace, 0, general_lookup_info.op_a@),
        columns_in_row(*trace, 0, general_lookup_info.op_b@),
        columns_in_row(*trace, 0, general_lookup_info.op_c@),
        trace_tests_readable(*trace, *general_lookup_info, prime),
    ensures
        texts(r.0@) == (if some_row_maybe_real(*trace, *general_lookup_info, prime) {
            seq![alu_record(*trace, *general_lookup_info)]
        } else {
            Seq::<Seq<char>>::empty()
        }),
{
    let n = trace.data.len();
    let mut found = false;
    let mut i: usize = 0;
    while i < n
        invariant
            prime > 0,
            n == trace.data@.len(),
            i <= n,
            trace_tests_readable(*trace, *general_lookup_info, prime),
            found <==> exists|j: int|
                0 <= j < i && #[trigger] maybe_real(
                    trace.data@[j]@,
                    *general_lookup_info,
                    prime,
                    n as int,
                    j,
                ),
        decreases n - i,
    {
        assert(real_tests_readable(trace.data@[i as int]@, *general_lookup_info, prime, n as int, i as int));
        if is_maybe_real_wo_pubval(&trace.data[i], general_lookup_info, prime, n, i) {
            found = true;
        }
        i = i + 1;
    }
    let mut records: Vec<String> = Vec::new();
    if found {
        let s = crate::ui::generate_alu_final_checker(general_lookup_info, trace);
        records.push(s);
        assert(texts(records@) =~= seq![alu_record(*trace, *general_lookup_info)]);
    } else {
        assert(texts(records@) =~= Seq::<Seq<char>>::empty());
    }
    PrettySet(records)
}

/// The records of the rows of a memory run that may be real rows
/// (`memory_row_record`).
pub open spec fn memory_records(
    trace: AbstractTrace,
    info: GeneralLookupInfo,
    p: u32,
    clk_column: usize,
    op_a: Seq<usize>,
    op_b: Seq<usize>,
    op_c: Seq<usize>,
    mem: Seq<usize>,
    k: int,
) -> Set<Seq<char>> {
    Set::new(
        |s: Seq<char>|
            exists|i: int|
                0 <= i < k && #[trigger] maybe_real(
                    trace.data@[i]@,
                    info,
                    p,
                    trace.data@.len() as int,
                    i,
                ) && s == memory_row_record(trace, i, clk_column, op_a, op_b, op_c, mem),
    )
}

/// The records of a memory run, each once: for each row that may be a real
/// row, its clock and the cells of its three operand accesses and of its
/// memory access.
pub fn generate_memory_op_final_checker(
    clk_column: usize,
    op_a_columns: &Vec<usize>,
    op_b_columns: &Vec<usize>,
    op_c_columns: &Vec<usize>,
    memory_columns: &Vec<usize>,
    general_lookup_info: &GeneralLookupInfo,
    trace: &AbstractTrace,
    prime: u32,
) -> (r: PrettySet)
    requires
        prime > 0,
        forall|i: int|
            0 <= i < trace.data@.len() ==> #[trigger] memory_columns_ok(
                *trace,
                i,
                clk_column,
                op_a_columns@,
                op_b_columns@,
                op_c_columns@,
                memory_columns@,
            ),
        trace_tests_readable(*trace, *general_lookup_info, prime),
    ensures
        texts(r.0@).no_duplicates(),
        texts(r.0@).to_set() == memory_records(
            *trace,
            *general_lookup_info,
            prime,
            clk_column,
            op_a_columns@,
            op_b_columns@,
            op_c_columns@,
            memory_columns@,
            trace.data@.len() as int,
        ),
{
    let n = trace.data.len();
    let mut records: Vec<String> = Vec::new();
    let mut i: usize = 0;
    assert(texts(records@).to_set() =~= memory_records(
        *trace,
        *general_lookup_info,
        prime,
        clk_column,
        op_a_columns@,
        op_b_columns@,
        op_c_columns@,
        memory_columns@,
        0,
    ));
    while i < n
        invariant
            prime > 0,
            n == trace.data@.len(),
            i <= n,
            forall|i: int|
                0 <= i < trace.data@.len() ==> #[trigger] memory_columns_ok(
                    *trace,
                    i,
                    clk_column,
                    op_a_columns@,
                    op_b_columns@,
                    op_c_columns@,
                    memory_columns@,
                ),
            trace_tests_readable(*trace, *general_lookup_info, prime),
            texts(records@).no_duplicates(),
            texts(records@).to_set() == memory_records(
                *trace,
                *general_lookup_info,
                prime,
                clk_column,
                op_a_columns@,
                op_b_columns@,
                op_c_columns@,
                memory_columns@,
                i as int,
            ),
        decreases n - i,
    {
        assert(real_tests_readable(trace.data@[i as int]@, *general_lookup_info, prime, n as int, i as int));
        let ghost before = memory_records(
            *trace,
            *general_lookup_info,
            prime,
            clk_column,
            op_a_columns@,
            op_b_columns@,
            op_c_columns@,
            memory_columns@,
            i as int,
        );
        let ghost after = memory_records(
            *trace,
            *general_lookup_info,
            prime,
            clk_column,
            op_a_columns@,
            op_b_columns@,
            op_c_columns@,
            memory_columns@,
            i as int + 1,
        );
        let ghost rec = memory_row_record(
            *trace,
            i as int,
            clk_column,
            op_a_columns@,
            op_b_columns@,
            op_c_columns@,
            memory_columns@,
        );
        if is_maybe_real_wo_pubval(&trace.data[i], general_lookup_info, prime, n, i) {
            assert(memory_columns_ok(
                *trace,
                i as int,
                clk_column,
                op_a_columns@,
                op_b_columns@,
                op_c_columns@,
                memory_columns@,
            ));
            let s = crate::ui::memory_row_string(
                clk_column,
                op_a_columns,
                op_b_columns,
                op_c_columns,
                memory_columns,
                trace,
                i,
            );
            add_text(&mut records, s);
            proof {
                assert forall|t: Seq<char>| after.contains(t) <==> before.insert(rec).contains(t) by {
                    if after.contains(t) {
                        let j = choose|j: int|
                            0 <= j < i + 1 && #[trigger] maybe_real(
                                trace.data@[j]@,
                                *general_lookup_info,
                                prime,
                                n as int,
                                j,
                            ) && t == memory_row_record(
                                *trace,
                                j,
                                clk_column,
                                op_a_columns@,
                                op_b_columns@,
                                op_c_columns@,
                                memory_columns@,
                            );
                        if j < i {
                            assert(before.contains(t));
                        }
                    }
                    if before.contains(t) {
                        let j = choose|j: int|
                            0 <= j < i && #[trigger] maybe_real(
                                trace.data@[j]@,
                                *general_lookup_info,
                                prime,
                                n as int,
                                j,
                            ) && t == memory_row_record(
                                *trace,
                                j,
                                clk_column,
                                op_a_columns@,
                                op_b_columns@,
                                op_c_columns@,
                                memory_columns@,
                            );
                        assert(after.contains(t));
                    }
                }
                assert(after =~= before.insert(rec));
            }
        } else {
            proof {
                assert forall|t: Seq<char>| after.contains(t) <==> before.contains(t) by {
                    if after.contains(t) {
                        let j = choose|j: int|
                            0 <= j < i + 1 && #[trigger] maybe_real(
                                trace.data@[j]@,
                                *general_lookup_info,
                                prime,
                                n as int,
                                j,
                            ) && t == memory_row_record(
                                *trace,
                                j,
                                clk_column,
                                op_a_columns@,
                                op_b_columns@,
                                op_c_columns@,
                                memory_columns@,
                            );
                        assert(j != i);
                        assert(before.contains(t));
                    }
                    if before.contains(t) {
                        let j = choose|j: int|
                            0 <= j < i && #[trigger] maybe_real(
                                trace.data@[j]@,
                                *general_lookup_info,
                                prime,
                                n as int,
                                j,
                            ) && t == memory_row_record(
                                *trace,
                                j,
                                clk_column,
                                op_a_columns@,
                                op_b_columns@,
                                op_c_columns@,
                                memory_columns@,
                            );
                        assert(after.contains(t));
                    }
                }
                assert(after =~= before);
            }
        }
        i = i + 1;
    }
    PrettySet(records)
}

} // verus!
