use vstd::prelude::*;

use crate::constraint::row_env;
use crate::interval::{AbstractInterval, MayBeFlag};
use crate::patterns::GeneralLookupInfo;
use crate::render::{interval_string, interval_text};
use crate::symbolic::ZEBRASymbolicExpr;
use crate::trace::{cells_text, trace_fmt_with_idxs, AbstractTrace};

verus! {

/// The texts shown by the terminal view: the search status, the satisfying
/// assignment, the program and the recovered representation, with the
/// scroll offset of each pane.
pub struct UiState {
    pub status: String,
    pub logs: String,
    pub program: String,
    pub recovered: String,
    pub scroll_status: u16,
    pub scroll_logs: u16,
    pub scroll_program: u16,
    pub scroll_recovered: u16,
}

impl UiState {
    /// Empty panes, scrolled to the top.
    pub fn new() -> (r: Self)
        ensures
            r.status@ == Seq::<char>::empty(),
            r.logs@ == Seq::<char>::empty(),
            r.program@ == Seq::<char>::empty(),
            r.recovered@ == Seq::<char>::empty(),
            r.scroll_status == 0,
            r.scroll_logs == 0,
            r.scroll_program == 0,
            r.scroll_recovered == 0,
    {
        UiState {
            status: String::new(),
            logs: String::new(),
            program: String::new(),
            recovered: String::new(),
            scroll_status: 0,
            scroll_logs: 0,
            scroll_program: 0,
            scroll_recovered: 0,
        }
    }
}

/// Every column of `idxs` lies in row `i`.
pub open spec fn columns_in_row(trace: AbstractTrace, i: int, idxs: Seq<usize>) -> bool {
    forall|k: int| 0 <= k < idxs.len() ==> #[trigger] idxs[k] < trace.data@[i]@.len()
}

/// The record of an ALU run: the cells of the first row at the operand and
/// result columns.
pub open spec fn alu_record(trace: AbstractTrace, info: GeneralLookupInfo) -> Seq<char> {
    let row = trace.data@[0]@;
    "input0: ["@ + cells_text(row, info.op_b@, info.op_b@.len()) + "], input1: ["@ + cells_text(
        row,
        info.op_c@,
        info.op_c@.len(),
    ) + "], output: ["@ + cells_text(row, info.op_a@, info.op_a@.len()) + "]"@
}

/// What the final check of an ALU run records of a satisfying trace (the
/// final check keeps each record once): the cells of the first row at the
/// columns of the two operands and of the result.
pub fn generate_alu_final_checker(general_lookup_info: &GeneralLookupInfo, trace: &AbstractTrace) -> (r: String)
    requires
        trace.data@.len() > 0,
        columns_in_row(*trace, 0, general_lookup_info.op_a@),
        columns_in_row(*trace, 0, general_lookup_info.op_b@),
        columns_in_row(*trace, 0, general_lookup_info.op_c@),
    ensures
        r@ == alu_record(*trace, *general_lookup_info),
{
    let mut r = String::from_str("input0: [");
    let b = trace_fmt_with_idxs(trace, 0, general_lookup_info.op_b.as_slice());
    r.append(b.as_str());
    r.append("], input1: [");
    let c = trace_fmt_with_idxs(trace, 0, general_lookup_info.op_c.as_slice());
    r.append(c.as_str());
    r.append("], output: [");
    let a = trace_fmt_with_idxs(trace, 0, general_lookup_info.op_a.as_slice());
    r.append(a.as_str());
    r.append("]");
    r
}

/// The block of row `i` in the record of a memory run.
pub open spec fn memory_row_record(
    trace: AbstractTrace,
    i: int,
    clk_column: usize,
    op_a: Seq<usize>,
    op_b: Seq<usize>,
    op_c: Seq<usize>,
    mem: Seq<usize>,
) -> Seq<char> {
    let row = trace.data@[i]@;
    "clk: "@ + interval_text(row[clk_column as int]) + "\nop_a_access: ["@ + cells_text(
        row,
        op_a,
        op_a.len(),
    ) + "]\nop_b_access: ["@ + cells_text(row, op_b, op_b.len()) + "]\nop_c_access: ["@
        + cells_text(row, op_c, op_c.len()) + "]\nmem_access: ["@ + cells_text(row, mem, mem.len())
        + "]\n--------------\n"@
}

/// The blocks of the first `k` rows.
pub open spec fn memory_record(
    trace: AbstractTrace,
    k: nat,
    clk_column: usize,
    op_a: Seq<usize>,
    op_b: Seq<usize>,
    op_c: Seq<usize>,
    mem: Seq<usize>,
) -> Seq<char>
    decreases k,
{
    if k == 0 {
        Seq::empty()
    } else {
        memory_record(trace, (k - 1) as nat, clk_column, op_a, op_b, op_c, mem) + memory_row_record(
            trace,
            k - 1,
            clk_column,
            op_a,
            op_b,
            op_c,
            mem,
        )
    }
}

/// Row `i` has the clock column and every access column.
pub open spec fn memory_columns_ok(
    trace: AbstractTrace,
    i: int,
    clk_column: usize,
    op_a: Seq<usize>,
    op_b: Seq<usize>,
    op_c: Seq<usize>,
    mem: Seq<usize>,
) -> bool {
    &&& clk_column < trace.data@[i]@.len()
    &&& columns_in_row(trace, i, op_a)
    &&& columns_in_row(trace, i, op_b)
    &&& columns_in_row(trace, i, op_c)
    &&& columns_in_row(trace, i, mem)
}

/// The block of row `i` (`memory_row_record`).
pub(crate) fn memory_row_string(
    clk_column: usize,
    op_a_columns: &Vec<usize>,
    op_b_columns: &Vec<usize>,
    op_c_columns: &Vec<usize>,
    memory_columns: &Vec<usize>,
    trace: &AbstractTrace,
    i: usize,
) -> (r: String)
    requires
        i < trace.data@.len(),
        memory_columns_ok(
            *trace,
            i as int,
            clk_column,
            op_a_columns@,
            op_b_columns@,
            op_c_columns@,
            memory_columns@,
        ),
    ensures
        r@ == memory_row_record(
            *trace,
            i as int,
            clk_column,
            op_a_columns@,
            op_b_columns@,
            op_c_columns@,
            memory_columns@,
        ),
{
    let mut block = String::from_str("clk: ");
    let c = interval_string(&trace.data[i][clk_column]);
    block.append(c.as_str());
    block.append("\nop_a_access: [");
    let a = trace_fmt_with_idxs(trace, i, op_a_columns.as_slice());
    block.append(a.as_str());
    block.append("]\nop_b_access: [");
    let b = trace_fmt_with_idxs(trace, i, op_b_columns.as_slice());
    block.append(b.as_str());
    block.append("]\nop_c_access: [");
    let cc = trace_fmt_with_idxs(trace, i, op_c_columns.as_slice());
    block.append(cc.as_str());
    block.append("]\nmem_access: [");
    let m = trace_fmt_with_idxs(trace, i, memory_columns.as_slice());
    block.append(m.as_str());
    block.append("]\n--------------\n");
    block
}

/// What the final check of a memory run records of a satisfying trace:
/// for each row, the clock and the cells of the three operand accesses and
/// of the memory access.
pub fn generate_memory_op_final_checker(
    clk_column: usize,
    op_a_columns: &Vec<usize>,
    op_b_columns: &Vec<usize>,
    op_c_columns: &Vec<usize>,
    memory_columns: &Vec<usize>,
    trace: &AbstractTrace,
) -> (r: String)
    requires
        forall|i: int|
            0 <= i < trace.data@.len() ==> #[trigger] memory_columns_ok(
                *trace,
                i,
                clk_column,
                op_a_columns@,
                op_b_columns@,
                op_c_columns@,
                memory_columns@,
            ),
    ensures
        r@ == memory_record(
            *trace,
            trace.data@.len() as nat,
            clk_column,
            op_a_columns@,
            op_b_columns@,
            op_c_columns@,
            memory_columns@,
        ),
{
    let mut r = String::new();
    let mut i: usize = 0;
    while i < trace.data.len()
        invariant
            i <= trace.data@.len(),
            forall|i: int|
                0 <= i < trace.data@.len() ==> #[trigger] memory_columns_ok(
                    *trace,
                    i,
                    clk_column,
                    op_a_columns@,
                    op_b_columns@,
                    op_c_columns@,
                    memory_columns@,
                ),
            r@ == memory_record(
                *trace,
                i as nat,
                clk_column,
                op_a_columns@,
                op_b_columns@,
                op_c_columns@,
                memory_columns@,
            ),
        decreases trace.data@.len() - i,
    {
        assert(memory_columns_ok(
            *trace,
            i as int,
            clk_column,
            op_a_columns@,
            op_b_columns@,
            op_c_columns@,
            memory_columns@,
        ));
        let block = memory_row_string(
            clk_column,
            op_a_columns,
            op_b_columns,
            op_c_columns,
            memory_columns,
            trace,
            i,
        );
        r.append(block.as_str());
        i = i + 1;
    }
    r
}

/// Row `i` is not a real step: the program-counter table's `is_real`
/// expression is surely zero there.
pub open spec fn is_dummy_row(e: ZEBRASymbolicExpr, rows: Seq<Seq<AbstractInterval>>, i: int, prime: u32) -> bool {
    e.value_of(row_env(rows, i, None, prime)).spec_is_zero(prime as int) == MayBeFlag::True
}

/// The expression can be evaluated at row `i` and its value tested.
pub open spec fn pad_readable(e: ZEBRASymbolicExpr, rows: Seq<Seq<AbstractInterval>>, i: int, prime: u32) -> bool {
    e.evaluable(row_env(rows, i, None, prime))
}

/// The expression can be evaluated at every row and its value tested.
pub open spec fn pad_ok(e: ZEBRASymbolicExpr, rows: Seq<Seq<AbstractInterval>>, prime: u32) -> bool {
    forall|i: int| 0 <= i < rows.len() ==> #[trigger] pad_readable(e, rows, i, prime)
}

fn is_dummy_at(e: &ZEBRASymbolicExpr, trace: &AbstractTrace, i: usize, prime: u32) -> (r: bool)
    requires
        prime > 0,
        i < trace.data@.len(),
        pad_readable(*e, trace.rows(), i as int, prime),
    ensures
        r == is_dummy_row(*e, trace.rows(), i as int, prime),
{
    let n = trace.data.len();
    let next: Option<&[AbstractInterval]> = if i + 1 < n {
        Some(trace.data[i + 1].as_slice())
    } else {
        None
    };
    let ghost env = row_env(trace.rows(), i as int, None, prime);
    assert(e.evaluable(env));
    let v = e.eval(trace.data[i].as_slice(), next, None, i == 0, i < n - 1, i == n - 1, prime);
    v.is_zero(prime) == MayBeFlag::True
}

/// When the last row is not a real step, every row that is not a real step
/// becomes a copy of the last row; otherwise the trace is unchanged. Whether
/// a row is a real step is read on the trace as it was given.
pub fn pad_dummy_rows_with_last_dummy(pc_table_is_real: &ZEBRASymbolicExpr, main_trace: &mut AbstractTrace, prime: u32)
    requires
        prime > 0,
        old(main_trace).data@.len() > 0,
        pad_readable(*pc_table_is_real, old(main_trace).rows(), old(main_trace).data@.len() - 1, prime),
        is_dummy_row(*pc_table_is_real, old(main_trace).rows(), old(main_trace).data@.len() - 1, prime) ==> pad_ok(
            *pc_table_is_real,
            old(main_trace).rows(),
            prime,
        ),
    ensures
        final(main_trace).singleton_positions@ == old(main_trace).singleton_positions@,
        final(main_trace).data@.len() == old(main_trace).data@.len(),
        ({
            let rows = old(main_trace).rows();
            let n = rows.len() as int;
            forall|i: int|
                0 <= i < n ==> #[trigger] final(main_trace).rows()[i] == if is_dummy_row(
                    *pc_table_is_real,
                    rows,
                    n - 1,
                    prime,
                ) && is_dummy_row(*pc_table_is_real, rows, i, prime) {
                    rows[n - 1]
                } else {
                    rows[i]
                }
        }),
{
    let n = main_trace.data.len();
    let ghost rows = main_trace.rows();
    if !is_dummy_at(pc_table_is_real, main_trace, n - 1, prime) {
        return;
    }
    let mut dummies: Vec<bool> = Vec::new();
    let mut i: usize = 0;
    while i < n
        invariant
            i <= n,
            n == main_trace.data@.len(),
            prime > 0,
            main_trace.rows() == rows,
            pad_ok(*pc_table_is_real, rows, prime),
            dummies@.len() == i,
            forall|k: int| 0 <= k < i ==> #[trigger] dummies@[k] == is_dummy_row(*pc_table_is_real, rows, k, prime),
        decreases n - i,
    {
        assert(pad_readable(*pc_table_is_real, rows, i as int, prime));
        let d = is_dummy_at(pc_table_is_real, main_trace, i, prime);
        dummies.push(d);
        i = i + 1;
    }
    let pad_ref_data = main_trace.data[n - 1].clone();
    assert(pad_ref_data@ == rows[n - 1]);
    let mut j: usize = 0;
    while j < n
        invariant
            j <= n,
            n == rows.len(),
            main_trace.data@.len() == n,
            pad_ref_data@ == rows[n - 1],
            main_trace.singleton_positions@ == old(main_trace).singleton_positions@,
            rows == old(main_trace).rows(),
            dummies@.len() == n,
            forall|k: int| 0 <= k < n ==> #[trigger] dummies@[k] == is_dummy_row(*pc_table_is_real, rows, k, prime),
            forall|k: int|
                0 <= k < n ==> #[trigger] main_trace.rows()[k] == if k < j && dummies@[k] {
                    rows[n - 1]
                } else {
                    rows[k]
                },
        decreases n - j,
    {
        let ghost prev = main_trace.data@;
        let ghost prev_rows = main_trace.rows();
        if dummies[j] {
            let c = pad_ref_data.clone();
            main_trace.data.set(j, c);
        }
        proof {
            assert forall|k: int| 0 <= k < n implies #[trigger] main_trace.rows()[k] == if k < j + 1
                && dummies@[k] {
                rows[n - 1]
            } else {
                rows[k]
            } by {
                assert(prev_rows[k] == if k < j && dummies@[k] {
                    rows[n - 1]
                } else {
                    rows[k]
                });
                if k != j {
                    assert(main_trace.data@[k] == prev[k]);
                    assert(prev_rows[k] == prev[k]@);
                }
            }
        }
        j = j + 1;
    }
}

} // verus!
