use std::collections::HashMap;

use latticevm::canonicalizer;
use latticevm::canonicalizer::is_maybe_real_wo_pubval;
use latticevm::analysis::{count_arith_ops, count_arith_ops_cse};
use latticevm::constraint::{eval_constraints, ZEBRAConstraints};
use latticevm::interval::{AbstractInterval, MayBeFlag};
use latticevm::memory::IntervalMemory;
use latticevm::patterns::GeneralLookupInfo;
use latticevm::render::expr_string;
use latticevm::smt::{expr_to_smt, expr_to_smt_bv, fixed_cells, output_cells};
use latticevm::wordop::{word_add, word_sub, word_subu, Word};
use latticevm::smt_terms::{bv_term_string, int_term_string};
use latticevm::shrinker::{
    apply_abir_refinement, detect_abir_constraints, move_sub_expr_to_right,
    refine_conditional_constraints_addvars_sub_const,
    refine_conditional_constraints_var_sub_const, refine_conditional_constraints_var_sub_var,
};
use latticevm::solver::{conditional_bool_targets, is_constraint_trivially_true, RangeType, VerificationStatus};
use latticevm::state::{AbstractState, MemoryOp, MemoryOpKind};
use latticevm::symbolic::{ExprWord, ZEBRASymbolicEntry, ZEBRASymbolicExpr, ZEBRASymbolicVal};
use latticevm::text::{push_hex8_i128, push_int, sort_texts, text_less};
use latticevm::trace::{trace_fmt_with_idxs, AbstractTrace};
use latticevm::ui::{
    generate_alu_final_checker, generate_memory_op_final_checker, pad_dummy_rows_with_last_dummy,
    UiState,
};
use latticevm::utils::{indices_arr, BitCombinationsDictOrder, PrettySet};

fn iv(lo: i128, hi: i128) -> AbstractInterval {
    AbstractInterval { lo, hi }
}

fn curr(i: usize) -> ZEBRASymbolicExpr {
    ZEBRASymbolicExpr::Variable(ZEBRASymbolicVal { entry: ZEBRASymbolicEntry::Main { is_curr: true }, index: i })
}

fn next(i: usize) -> ZEBRASymbolicExpr {
    ZEBRASymbolicExpr::Variable(ZEBRASymbolicVal { entry: ZEBRASymbolicEntry::Main { is_curr: false }, index: i })
}

fn konst(v: i128) -> ZEBRASymbolicExpr {
    ZEBRASymbolicExpr::Constant(iv(v, v))
}

fn word(a: ZEBRASymbolicExpr, b: ZEBRASymbolicExpr, c: ZEBRASymbolicExpr, d: ZEBRASymbolicExpr) -> ExprWord {
    ExprWord { l0: Box::new(a), l1: Box::new(b), l2: Box::new(c), l3: Box::new(d) }
}

// ------------------------------------------------------------------ text

#[test]
fn decimal_text_of_signed_values() {
    let mut s = String::new();
    push_int(&mut s, -1234);
    assert_eq!(s, "-1234");
    let mut s = String::new();
    push_int(&mut s, 0);
    assert_eq!(s, "0");
    let mut s = String::new();
    push_int(&mut s, i128::MIN);
    assert_eq!(s, i128::MIN.to_string());
}

#[test]
fn hex_text_is_padded_and_twos_complement() {
    let mut s = String::new();
    push_hex8_i128(&mut s, 255);
    assert_eq!(s, "000000ff");
    let mut s = String::new();
    push_hex8_i128(&mut s, 0x1_2345_6789);
    assert_eq!(s, "123456789");
    let mut s = String::new();
    push_hex8_i128(&mut s, -1);
    assert_eq!(s, format!("{:08x}", -1i64));
    assert_eq!(s, "ffffffffffffffff");
    let mut s = String::new();
    push_hex8_i128(&mut s, -5);
    assert_eq!(s, "fffffffffffffffb");
    let mut s = String::new();
    push_hex8_i128(&mut s, i64::MIN as i128);
    assert_eq!(s, format!("{:08x}", i64::MIN));
}

#[test]
fn texts_sort_by_character_codes() {
    let v = vec![String::from("b"), String::from("ab"), String::from("a"), String::from("B")];
    let r = sort_texts(&v);
    assert_eq!(r, vec!["B", "a", "ab", "b"]);
    assert!(text_less(&String::from("a"), &String::from("ab")));
    assert!(!text_less(&String::from("ab"), &String::from("ab")));
}

// ------------------------------------------------------------------ rendering

#[test]
fn interval_render_singleton_and_range() {
    assert_eq!(iv(5, 5).render(), "5");
    assert_eq!(iv(-3, -3).render(), "-3");
    assert_eq!(iv(1, 2).render(), "[1, 2]");
}

#[test]
fn expression_render() {
    let e = ZEBRASymbolicExpr::Add(Box::new(curr(3)), Box::new(konst(5)));
    assert_eq!(e.render(), "(curr[3] + 5)");
    let w = ZEBRASymbolicExpr::WordAddU(
        word(curr(0), curr(1), konst(0), konst(0)),
        word(next(2), konst(1), konst(2), konst(3)),
    );
    assert_eq!(expr_string(&w), "[curr[0], curr[1], 0, 0] +u [next[2], 1, 2, 3]");
    let g = ZEBRASymbolicExpr::WhenZero(Box::new(ZEBRASymbolicExpr::IsFirstRow), Box::new(konst(1)));
    assert_eq!(g.render(), "([IsFirstRow = 0] => 1)");
    let k = ZEBRASymbolicExpr::KoalaBearRange(Box::new(curr(0)));
    assert_eq!(k.render(), "\u{1f428}curr[0]\u{1f428}");
}

#[test]
fn trace_rendering() {
    let t = AbstractTrace::new(vec![vec![iv(1, 1), iv(2, 3), iv(4, 4)], vec![iv(0, 0), iv(0, 0), iv(9, 9)]]);
    assert_eq!(trace_fmt_with_idxs(&t, 0, &[2, 0]), "4, 1");
    assert_eq!(trace_fmt_with_idxs(&t, 1, &[]), "");
    assert_eq!(t.render(), "* 1, [2, 3], 4, \n* 0, 0, 9, \n");
}

#[test]
fn memory_table_rendering() {
    let mut mem = IntervalMemory::new();
    mem.write(&iv(10, 20), &iv(1, 1));
    let expected = format!(
        "  Address Interval | Value Interval\n  {}-+-{}\n  [10, 20]         | 1\n\n",
        "-".repeat(16),
        "-".repeat(20)
    );
    assert_eq!(mem.render(), expected);
}

#[test]
fn state_rendering_sorts_accesses() {
    let s = AbstractState {
        clk: iv(1, 1),
        pc: iv(0, 4),
        memory_ops: vec![
            MemoryOp { kind: MemoryOpKind::Write, addr: iv(8, 8), value: iv(2, 2) },
            MemoryOp { kind: MemoryOpKind::Read, addr: iv(0, 3), value: iv(7, 7) },
        ],
        is_done: MayBeFlag::MayBe,
    };
    assert_eq!(
        s.render(),
        "(clk: 1, pc: [0, 4], is_done: MayBe, memory: [(Read: addr: [0, 3], value: 7),(Write: addr: 8, value: 2)])"
    );
}

#[test]
fn pretty_set_rendering() {
    let p = PrettySet(vec![String::from("b"), String::from("a")]);
    assert_eq!(p.render(), "{\na,\nb,\n}");
}

// ------------------------------------------------------------------ utilities

#[test]
fn bit_combinations_in_order() {
    let mut it = BitCombinationsDictOrder::new(2);
    assert_eq!(it.next_combination(), Some(vec![0, 0]));
    assert_eq!(it.next_combination(), Some(vec![0, 1]));
    assert_eq!(it.next_combination(), Some(vec![1, 0]));
    assert_eq!(it.next_combination(), Some(vec![1, 1]));
    assert_eq!(it.next_combination(), None);
    let mut full = BitCombinationsDictOrder::new(usize::BITS as usize);
    assert_eq!(full.next_combination(), None);
}

#[test]
fn indices_are_positions() {
    assert_eq!(indices_arr(4), vec![0, 1, 2, 3]);
    assert!(indices_arr(0).is_empty());
}

#[test]
fn ui_state_starts_empty() {
    let u = UiState::new();
    assert!(u.status.is_empty() && u.logs.is_empty() && u.program.is_empty() && u.recovered.is_empty());
    assert_eq!(u.scroll_status + u.scroll_logs + u.scroll_program + u.scroll_recovered, 0);
}

#[test]
fn verification_result_is_verified() {
    let r = latticevm::quick::VerificationResult {
        status: VerificationStatus::Verified,
        num_solutions: 1,
        num_total_trials: 1,
        execution_time: std::time::Duration::from_millis(3),
        area: 0,
    };
    assert!(r.is_verified());
    let r2 = latticevm::quick::VerificationResult { status: VerificationStatus::TimedOut, ..r };
    assert!(!r2.is_verified());
}

// ------------------------------------------------------------------ final checks

#[test]
fn alu_record_reads_first_row() {
    let t = AbstractTrace::new(vec![vec![iv(1, 1), iv(2, 2), iv(3, 5)]]);
    let info = GeneralLookupInfo { op_a: vec![2], op_b: vec![0], op_c: vec![1, 0], is_real: vec![] };
    assert_eq!(generate_alu_final_checker(&info, &t), "input0: [1], input1: [2, 1], output: [[3, 5]]");
}

#[test]
fn memory_record_has_a_block_per_row() {
    let t = AbstractTrace::new(vec![vec![iv(7, 7), iv(1, 1)], vec![iv(8, 8), iv(2, 3)]]);
    let r = generate_memory_op_final_checker(0, &vec![1], &vec![], &vec![0, 1], &vec![1], &t);
    assert_eq!(
        r,
        "clk: 7\nop_a_access: [1]\nop_b_access: []\nop_c_access: [7, 1]\nmem_access: [1]\n--------------\n\
clk: 8\nop_a_access: [[2, 3]]\nop_b_access: []\nop_c_access: [8, [2, 3]]\nmem_access: [[2, 3]]\n--------------\n"
    );
}

#[test]
fn rows_may_be_real_unless_every_test_is_zero() {
    let info = GeneralLookupInfo { op_a: vec![], op_b: vec![], op_c: vec![], is_real: vec![curr(0), curr(1)] };
    assert!(!is_maybe_real_wo_pubval(&vec![iv(0, 0), iv(7, 7)], &info, 7, 2, 0));
    assert!(is_maybe_real_wo_pubval(&vec![iv(0, 0), iv(3, 3)], &info, 7, 2, 1));
    assert!(is_maybe_real_wo_pubval(&vec![iv(0, 1), iv(0, 0)], &info, 7, 2, 0));
}

#[test]
fn alu_records_only_when_some_row_may_be_real() {
    let info = GeneralLookupInfo { op_a: vec![2], op_b: vec![0], op_c: vec![1], is_real: vec![curr(3)] };
    let idle = AbstractTrace::new(vec![vec![iv(1, 1), iv(2, 2), iv(3, 3), iv(0, 0)]]);
    assert!(canonicalizer::generate_alu_final_checker(&info, &idle, 7).0.is_empty());
    let busy = AbstractTrace::new(vec![
        vec![iv(1, 1), iv(2, 2), iv(3, 3), iv(0, 0)],
        vec![iv(4, 4), iv(5, 5), iv(6, 6), iv(1, 1)],
        vec![iv(4, 4), iv(5, 5), iv(6, 6), iv(1, 1)],
    ]);
    let r = canonicalizer::generate_alu_final_checker(&info, &busy, 7);
    assert_eq!(r.0, vec![String::from("input0: [1], input1: [2], output: [3]")]);
    assert_eq!(r.render(), "{\ninput0: [1], input1: [2], output: [3],\n}");
}

#[test]
fn memory_records_keep_real_rows_once() {
    let info = GeneralLookupInfo { op_a: vec![], op_b: vec![], op_c: vec![], is_real: vec![curr(2)] };
    let t = AbstractTrace::new(vec![
        vec![iv(9, 9), iv(1, 1), iv(1, 1)],
        vec![iv(7, 7), iv(2, 2), iv(0, 0)],
        vec![iv(9, 9), iv(1, 1), iv(1, 1)],
    ]);
    let r = canonicalizer::generate_memory_op_final_checker(0, &vec![1], &vec![], &vec![], &vec![1], &info, &t, 7);
    assert_eq!(
        r.0,
        vec![String::from("clk: 9\nop_a_access: [1]\nop_b_access: []\nop_c_access: []\nmem_access: [1]\n--------------\n")]
    );
}

#[test]
fn trivially_true_constraints_vanish_on_every_row() {
    let t = AbstractTrace::new(vec![vec![iv(0, 0), iv(3, 3)], vec![iv(7, 7), iv(0, 0)]]);
    assert!(is_constraint_trivially_true(&curr(0), &t, &[], 7));
    assert!(!is_constraint_trivially_true(&curr(1), &t, &[], 7));
    let shifted = ZEBRASymbolicExpr::Sub(Box::new(next(0)), Box::new(konst(1)));
    assert!(!is_constraint_trivially_true(&shifted, &t, &[], 7));
}

#[test]
fn padding_copies_last_row_over_dummy_rows() {
    let mut t = AbstractTrace::new(vec![
        vec![iv(1, 1), iv(10, 10)],
        vec![iv(0, 0), iv(20, 20)],
        vec![iv(1, 1), iv(30, 30)],
        vec![iv(0, 0), iv(40, 40)],
    ]);
    pad_dummy_rows_with_last_dummy(&curr(0), &mut t, 7);
    assert_eq!(t.data[0], vec![iv(1, 1), iv(10, 10)]);
    assert_eq!(t.data[1], vec![iv(0, 0), iv(40, 40)]);
    assert_eq!(t.data[2], vec![iv(1, 1), iv(30, 30)]);
    assert_eq!(t.data[3], vec![iv(0, 0), iv(40, 40)]);

    let mut u = AbstractTrace::new(vec![vec![iv(0, 0), iv(5, 5)], vec![iv(1, 1), iv(6, 6)]]);
    pad_dummy_rows_with_last_dummy(&curr(0), &mut u, 7);
    assert_eq!(u.data[0], vec![iv(0, 0), iv(5, 5)]);
}

// ------------------------------------------------------------------ SMT queries

#[test]
fn integer_terms() {
    let e = ZEBRASymbolicExpr::WhenNonZero(Box::new(curr(2)), Box::new(ZEBRASymbolicExpr::Sub(Box::new(next(0)), Box::new(konst(-3)))));
    assert_eq!(int_term_string(&e, 4, 9), "(ite (= trace_4_2 0) 0 (- trace_5_0 -3))");
    assert_eq!(int_term_string(&ZEBRASymbolicExpr::IsTransition, 8, 9), "0");
    assert_eq!(int_term_string(&ZEBRASymbolicExpr::IsLastRow, 8, 9), "1");
    let w = ZEBRASymbolicExpr::WordAnd(word(curr(0), curr(1), curr(2), curr(3)), word(konst(1), konst(0), konst(0), konst(0)));
    assert_eq!(
        int_term_string(&w, 0, 1),
        "bitwise_and((+ (+ (+ trace_0_0 (* trace_0_1 256)) (* trace_0_2 65536)) (* trace_0_3 16777216)), \
(+ (+ (+ 1 (* 0 256)) (* 0 65536)) (* 0 16777216)))"
    );
}

#[test]
fn bit_vector_terms() {
    let pv = ZEBRASymbolicExpr::Variable(ZEBRASymbolicVal { entry: ZEBRASymbolicEntry::Public, index: 4 });
    let e = ZEBRASymbolicExpr::Add(Box::new(pv), Box::new(konst(255)));
    assert_eq!(bv_term_string(&e, 0, 1, false), "(ff_add public_0_4 #x000000ff)");
    assert_eq!(bv_term_string(&e, 0, 1, true), "(bvadd public_0_4 #x000000ff)");
    assert_eq!(bv_term_string(&konst(-1), 0, 1, true), format!("#x{:08x}", -1i64));
    let k = ZEBRASymbolicExpr::KoalaBearRange(Box::new(ZEBRASymbolicExpr::Mul(Box::new(curr(0)), Box::new(curr(1)))));
    assert_eq!(
        bv_term_string(&k, 0, 2, false),
        "(ite (bvult (bvmul trace_0_0 trace_0_1) #x7f000001) #x00000000 #x00000001)"
    );
    let x = ZEBRASymbolicExpr::WordXOr(word(curr(0), konst(0), konst(0), konst(0)), word(curr(1), konst(0), konst(0), konst(0)));
    assert_eq!(
        bv_term_string(&x, 0, 1, false),
        "(bvadd (bvadd (bvadd (bvxor trace_0_0 trace_0_1) (bvmul (bvxor #x00000000 #x00000000) #x00000100)) \
(bvmul (bvxor #x00000000 #x00000000) #x00010000)) (bvmul (bvxor #x00000000 #x00000000) #x01000000))"
    );
}

fn small_system() -> ZEBRAConstraints {
    let air = vec![ZEBRASymbolicExpr::Sub(Box::new(next(0)), Box::new(curr(0)))];
    ZEBRAConstraints::new(air, vec![])
}

#[test]
fn integer_query() {
    let c = small_system();
    let mut ranges = HashMap::new();
    ranges.insert(0usize, RangeType::U8);
    let q = expr_to_smt(&c, &vec![(0, 0, iv(12, 12))], &vec![(1, 0, iv(-1, -1))], &ranges, 2, 1, 1, 7);
    assert!(q.starts_with("(set-logic QF_NIA)\n\n(define-fun bitwise_and ((a Int) (b Int)) Int\n  (+ \n"));
    assert!(q.contains("    (* (ite (>= (mod a 2) 1) 1 0) (ite (>= (mod b 2) 1) 1 0) 1)\n"));
    assert!(q.contains("    (* (ite (>= (mod a 4294967296) 2147483648) 1 0) (ite (>= (mod b 4294967296) 2147483648) 1 0) 2147483648)\n))\n"));
    let tail = "(declare-fun trace_0_0 () Int)\n(declare-fun trace_1_0 () Int)\n(declare-fun trace_2_0 () Int)\n\
(declare-fun public_0_0 () Int)\n\
(assert (= (mod (- trace_1_0 trace_0_0) 7) 0))\n(assert (= (mod (- trace_2_0 trace_1_0) 7) 0))\n\
(assert (= trace_0_0 5))\n\
(assert (not (and\n  (= (mod (- trace_1_0 6) 7) 0)\n)))\n\
(assert (<= trace_0_0 255))\n(assert (<= 0 trace_0_0))\n(assert (<= trace_1_0 255))\n(assert (<= 0 trace_1_0))\n\
(check-sat)\n(get-model)\n";
    assert!(q.ends_with(tail));
}

#[test]
fn bit_vector_query() {
    let c = small_system();
    let mut ranges = HashMap::new();
    ranges.insert(0usize, RangeType::U16);
    let q = expr_to_smt_bv(&c, &vec![(0, 0, iv(12, 12))], &vec![], &ranges, 1, 1, 0, 2130706433);
    assert!(q.starts_with("(set-logic QF_BV)\n(define-fun P () (_ BitVec 32) #x7f000001)\n;; finite field addition: (a + b) mod p\n"));
    let tail = "      ((_ zero_extend 32) P))))\n(declare-fun trace_0_0 () (_ BitVec 32))\n(declare-fun trace_1_0 () (_ BitVec 32))\n\
(assert (= (ff_sub trace_1_0 trace_0_0) #x00000000))\n\
(assert (= trace_0_0 #x0000000c))\n\
(assert (bvule trace_0_0 #x0000ffff))\n\
(check-sat)\n(get-model)\n";
    assert!(q.ends_with(tail));
}

#[test]
fn range_bounds_follow_the_columns_in_increasing_order() {
    let c = small_system();
    let mut ranges = HashMap::new();
    ranges.insert(3usize, RangeType::U8);
    ranges.insert(0usize, RangeType::U8);
    ranges.insert(1usize, RangeType::U16);
    let q = expr_to_smt(&c, &vec![], &vec![], &ranges, 1, 1, 0, 7);
    assert!(q.ends_with(
        "(assert (<= trace_0_0 255))\n(assert (<= 0 trace_0_0))\n\
(assert (<= trace_0_3 255))\n(assert (<= 0 trace_0_3))\n(check-sat)\n(get-model)\n"
    ));
    let b = expr_to_smt_bv(&c, &vec![], &vec![], &ranges, 1, 1, 0, 7);
    assert!(b.ends_with(
        "(assert (bvule trace_0_0 #x000000ff))\n(assert (bvule trace_0_1 #x0000ffff))\n\
(assert (bvule trace_0_3 #x000000ff))\n(check-sat)\n(get-model)\n"
    ));
}

#[test]
fn bit_vector_range_bounds_by_range_type() {
    let c = small_system();
    let mut ranges = HashMap::new();
    ranges.insert(3usize, RangeType::U7);
    ranges.insert(4usize, RangeType::U8);
    ranges.insert(5usize, RangeType::U16);
    ranges.insert(6usize, RangeType::Bool);
    let b = expr_to_smt_bv(&c, &vec![], &vec![], &ranges, 2, 7, 0, 7);
    for i in 0..2 {
        assert!(b.contains(&format!("(assert (bvule trace_{}_3 #x0000007e))\n", i)));
        assert!(b.contains(&format!("(assert (bvule trace_{}_4 #x000000ff))\n", i)));
        assert!(b.contains(&format!("(assert (bvule trace_{}_5 #x0000ffff))\n", i)));
        assert!(!b.contains(&format!("(assert (bvule trace_{}_6 ", i)));
    }
}

// ------------------------------------------------------------------ query cells

#[test]
fn fixed_and_output_cells() {
    let row0 = vec![iv(1, 1), iv(2, 2), iv(3, 4), iv(5, 5)];
    assert_eq!(fixed_cells(4, &vec![1, 3], &row0), vec![(0, 0, iv(1, 1)), (0, 2, iv(3, 4))]);
    assert_eq!(fixed_cells(2, &vec![], &row0), vec![(0, 0, iv(1, 1)), (0, 1, iv(2, 2))]);
    assert_eq!(output_cells(&vec![3, 0], &row0), vec![(0, 3, iv(5, 5)), (0, 0, iv(1, 1))]);
}

// ------------------------------------------------------------------ laws on concrete values

fn bytes_value(x: [i128; 4]) -> i128 {
    x[0] + 256 * x[1] + 65536 * x[2] + 16777216 * x[3]
}

#[test]
fn word_add_and_sub_contain_every_concrete_result() {
    let a: Word = [iv(250, 255), iv(255, 255), iv(0, 1), iv(0, 0)];
    let b: Word = [iv(3, 9), iv(0, 2), iv(0, 0), iv(0, 0)];
    let add = word_add(&a, &b);
    let sub = word_sub(&a, &b);
    for x0 in 250..=255 {
        for x2 in 0..=1 {
            for y0 in 3..=9 {
                for y1 in 0..=2 {
                    let x = bytes_value([x0, 255, x2, 0]);
                    let y = bytes_value([y0, y1, 0, 0]);
                    let s = (x + y).rem_euclid(1 << 32);
                    let d = (x - y).rem_euclid(1 << 32);
                    assert!(add.lo <= s && s <= add.hi);
                    assert!(sub.lo <= d && d <= sub.hi);
                }
            }
        }
    }
}

#[test]
fn memory_read_after_write_answers_by_the_written_values() {
    let mut mem = IntervalMemory::new();
    mem.write(&iv(0, 9), &iv(3, 4));
    assert_eq!(mem.check_read(&iv(0, 9), &iv(0, 10)), MayBeFlag::True);
    assert_eq!(mem.check_read(&iv(0, 9), &iv(5, 10)), MayBeFlag::False);
    assert_eq!(mem.check_read(&iv(0, 9), &iv(4, 10)), MayBeFlag::MayBe);
    let empty = IntervalMemory::new();
    assert_eq!(empty.check_read(&iv(0, 9), &iv(0, 0)), MayBeFlag::True);
}

#[test]
fn interval_arithmetic_contains_concrete_results() {
    let a = iv(-3, 4);
    let b = iv(-2, 5);
    let (s, d, p, n) = (a + b, a - b, a * b, -a);
    for x in -3..=4 {
        for y in -2..=5 {
            assert!(s.lo <= x + y && x + y <= s.hi);
            assert!(d.lo <= x - y && x - y <= d.hi);
            assert!(p.lo <= x * y && x * y <= p.hi);
        }
        assert!(n.lo <= -x && -x <= n.hi);
    }
}

#[test]
fn field_evaluation_contains_concrete_values() {
    let e = ZEBRASymbolicExpr::Add(
        Box::new(ZEBRASymbolicExpr::Mul(Box::new(curr(0)), Box::new(konst(2)))),
        Box::new(konst(1)),
    );
    let row = vec![iv(1, 3)];
    let v = e.eval(&row, None, None, true, false, true, 97);
    assert_eq!(v, iv(3, 7));
    for x in 1..=3 {
        let c = 2 * x + 1;
        assert!(v.lo <= c && c <= v.hi);
    }
    let w = ZEBRASymbolicExpr::WhenNonZero(Box::new(curr(0)), Box::new(konst(5)));
    let guarded = w.eval(&vec![iv(0, 2)], None, None, true, false, true, 97);
    assert!(guarded.lo <= 0 && 5 <= guarded.hi);
}

// ------------------------------------------------------------------ refinement narrows

fn within(a: &AbstractTrace, b: &AbstractTrace) -> bool {
    a.data.len() == b.data.len()
        && a.data.iter().zip(b.data.iter()).all(|(ra, rb)| {
            ra.len() == rb.len() && ra.iter().zip(rb.iter()).all(|(x, y)| y.lo <= x.lo && x.hi <= y.hi)
        })
}

#[test]
fn refinement_passes_never_widen_a_cell() {
    let start = AbstractTrace::new(vec![
        vec![iv(1, 1), iv(0, 9), iv(3, 12)],
        vec![iv(0, 1), iv(2, 5), iv(4, 4)],
        vec![iv(1, 1), iv(6, 8), iv(0, 7)],
    ]);
    let mut t = start.clone();
    refine_conditional_constraints_var_sub_const(&mut t, &[(0, 1, 4)]);
    assert!(within(&t, &start));
    assert_eq!(t.data[0][1], iv(4, 4));
    assert_eq!(t.data[1][1], iv(2, 5));
    let before = t.clone();
    refine_conditional_constraints_var_sub_var(&mut t, &[(0, 1, 2)]);
    assert!(within(&t, &before));
    assert!(within(&t, &start));
    assert_eq!(t.data[0][1], iv(4, 4));
    assert_eq!(t.data[0][2], iv(4, 4));
}

#[test]
fn refinement_keeps_concrete_solutions() {
    // A concrete table of field elements for p = 7 that meets
    // s * (v - 4) = 0 and s * (v - w) = 0 on every row.
    let solution = [[1i128, 4, 4], [0, 3, 5], [1, 4, 4]];
    let mut t = AbstractTrace::new(vec![
        vec![iv(1, 1), iv(0, 6), iv(2, 6)],
        vec![iv(0, 1), iv(2, 5), iv(5, 6)],
        vec![iv(1, 1), iv(3, 6), iv(0, 4)],
    ]);
    let contains = |t: &AbstractTrace| {
        (0..3).all(|r| (0..3).all(|j| t.data[r][j].lo <= solution[r][j] && solution[r][j] <= t.data[r][j].hi))
    };
    assert!(contains(&t));
    assert_eq!(refine_conditional_constraints_var_sub_const(&mut t, &[(0, 1, 4)]), MayBeFlag::MayBe);
    assert!(contains(&t));
    assert_eq!(refine_conditional_constraints_var_sub_var(&mut t, &[(0, 1, 2)]), MayBeFlag::MayBe);
    assert!(contains(&t));
    assert_eq!(t.data[2][2], iv(4, 4));
}

#[test]
fn conditional_boolean_columns_join_the_targets() {
    let boolean2 = ZEBRASymbolicExpr::Mul(
        Box::new(curr(2)),
        Box::new(ZEBRASymbolicExpr::Sub(Box::new(curr(2)), Box::new(konst(1)))),
    );
    let air = vec![ZEBRASymbolicExpr::Mul(Box::new(curr(0)), Box::new(boolean2))];
    let mut t = AbstractTrace::new(vec![
        vec![iv(1, 1), iv(0, 9), iv(0, 5)],
        vec![iv(0, 0), iv(0, 9), iv(3, 3)],
        vec![iv(1, 1), iv(0, 9), iv(0, 5)],
    ]);
    let mut ranges = HashMap::new();
    ranges.insert(1usize, RangeType::Bool);
    let targets = conditional_bool_targets(&mut t, &[], &air, &vec![1, 0], &ranges, 0, 1, 7);
    assert_eq!(targets, vec![1, 2]);
    assert_eq!(t.data[0][2], iv(0, 1));
    assert_eq!(t.data[1][2], iv(3, 3));
    assert_eq!(t.data[2][2], iv(0, 5));
    assert_eq!(t.data[0][1], iv(0, 9));
}

// ------------------------------------------------------------------ more laws on values

#[test]
fn evaluation_outcomes_and_counts() {
    let air = vec![ZEBRASymbolicExpr::Sub(Box::new(curr(0)), Box::new(konst(1)))];
    let c = ZEBRAConstraints::new(air, vec![]);
    let sure = AbstractTrace::new(vec![vec![iv(1, 1)], vec![iv(8, 8)]]);
    let (f, p, m) = eval_constraints(&sure, None, &c, 7);
    assert_eq!((f, p, m.len()), (MayBeFlag::True, 0, 0));
    let open = AbstractTrace::new(vec![vec![iv(0, 3)], vec![iv(1, 1)]]);
    let (f, p, m) = eval_constraints(&open, None, &c, 7);
    assert_eq!((f, p), (MayBeFlag::MayBe, 1));
    assert_eq!(m, vec![(0, 0)]);
    let wrong = AbstractTrace::new(vec![vec![iv(0, 3)], vec![iv(2, 2)]]);
    let (f, p, _) = eval_constraints(&wrong, None, &c, 7);
    assert_eq!((f, p), (MayBeFlag::False, 0));
}

#[test]
fn shared_subterms_count_at_most_once() {
    let s = ZEBRASymbolicExpr::Add(Box::new(curr(0)), Box::new(curr(1)));
    let e = ZEBRASymbolicExpr::Mul(Box::new(s.clone()), Box::new(s));
    assert_eq!(count_arith_ops(&e), 3);
    assert_eq!(count_arith_ops_cse(&[&e]), 2);
}

#[test]
fn writing_leaves_other_addresses_alone() {
    let mut m = IntervalMemory::new();
    m.write(&iv(0, 9), &iv(5, 5));
    m.write(&iv(3, 4), &iv(7, 7));
    assert_eq!(m.check_read(&iv(3, 4), &iv(7, 7)), MayBeFlag::True);
    assert_eq!(m.check_read(&iv(0, 2), &iv(5, 5)), MayBeFlag::True);
    assert_eq!(m.check_read(&iv(5, 9), &iv(5, 5)), MayBeFlag::True);
    assert_eq!(m.check_read(&iv(12, 12), &iv(0, 0)), MayBeFlag::True);
}

#[test]
fn split_gives_adjacent_halves() {
    let h = iv(3, 10).split(7);
    assert_eq!(h, vec![iv(3, 6), iv(7, 10)]);
    assert_eq!(iv(4, 4).split(7), vec![iv(4, 4), iv(4, 4)]);
    assert_eq!(iv(4, 5).split(7), vec![iv(4, 4), iv(5, 5)]);
}

#[test]
fn wrapping_word_difference() {
    let w = |lo: i128, hi: i128| -> Word { [iv(lo, hi), iv(0, 0), iv(0, 0), iv(0, 0)] };
    assert_eq!(word_subu(&w(5, 5), &w(10, 10)), iv(4294967291, 4294967291));
    assert_eq!(word_subu(&w(20, 30), &w(1, 5)), iv(15, 29));
    assert_eq!(word_subu(&w(1, 5), &w(20, 30)), iv(4294967267, 4294967281));
}

#[test]
fn moving_a_subtraction_keeps_the_value() {
    let e = ZEBRASymbolicExpr::Add(
        Box::new(ZEBRASymbolicExpr::Sub(Box::new(curr(0)), Box::new(curr(1)))),
        Box::new(curr(2)),
    );
    let m = move_sub_expr_to_right(&e);
    let row = vec![iv(1, 4), iv(2, 3), iv(10, 20)];
    assert_eq!(m.eval(&row, None, None, true, false, true, 7), e.eval(&row, None, None, true, false, true, 7));
}

#[test]
fn affine_refinement_narrows_quotients_only() {
    // a - (L - 2 * e) with a = curr(0), L = curr(1), e = curr(2)
    let de = ZEBRASymbolicExpr::Mul(Box::new(curr(2)), Box::new(konst(2)));
    let c = ZEBRASymbolicExpr::Sub(
        Box::new(curr(0)),
        Box::new(ZEBRASymbolicExpr::Sub(Box::new(curr(1)), Box::new(de))),
    );
    let found = detect_abir_constraints(&[c], 7);
    assert_eq!(found.len(), 1);
    assert!(found[0].stride > 0);
    let mut t = AbstractTrace::new(vec![vec![iv(1, 1), iv(9, 9), iv(0, 100)]]);
    let (f, log) = apply_abir_refinement(&mut t, &found, 7);
    assert_eq!(f, MayBeFlag::MayBe);
    assert_eq!(t.data[0][0], iv(1, 1));
    assert_eq!(t.data[0][1], iv(9, 9));
    assert_eq!(t.data[0][2], iv(4, 4));
    assert_eq!(log, vec![(iv(0, 100), iv(4, 4))]);
}

#[test]
fn gated_assignment_fixes_firing_rows() {
    let mut t = AbstractTrace::new(vec![vec![iv(1, 1), iv(0, 9)], vec![iv(0, 1), iv(0, 9)]]);
    assert_eq!(refine_conditional_constraints_var_sub_const(&mut t, &[(0, 1, 3)]), MayBeFlag::MayBe);
    assert_eq!(t.data[0][1], iv(3, 3));
    assert_eq!(t.data[1][1], iv(0, 9));
}

#[test]
fn bitwise_evaluation_holds_concrete_results() {
    let e = ZEBRASymbolicExpr::Xor(
        Box::new(ZEBRASymbolicExpr::And(Box::new(curr(0)), Box::new(curr(1)))),
        Box::new(curr(2)),
    );
    let row = vec![iv(4, 7), iv(2, 6), iv(1, 3)];
    let r = e.eval(&row, None, None, true, false, true, 97);
    for a in 4..=7i128 {
        for b in 2..=6i128 {
            for c in 1..=3i128 {
                let v = (a & b) ^ c;
                assert!(r.lo <= v && v <= r.hi);
            }
        }
    }
}

#[test]
fn word_sum_evaluation_holds_concrete_results() {
    let e = ZEBRASymbolicExpr::WordAddU(
        word(curr(0), konst(0), konst(0), konst(255)),
        word(curr(1), konst(0), konst(0), konst(1)),
    );
    let row = vec![iv(250, 255), iv(10, 12)];
    let r = e.eval(&row, None, None, true, false, true, 2013265921);
    for a in 250..=255i128 {
        for b in 10..=12i128 {
            let v = (a + 255 * 16777216 + b + 16777216) % 4294967296;
            assert!(r.lo <= v && v <= r.hi);
        }
    }
}

#[test]
fn gated_sum_keeps_its_solution() {
    // s * (v1 + v2 - 10) = 0 in the field of 97, solution (1, 3, 7).
    let mut t = AbstractTrace::new(vec![vec![iv(1, 1), iv(3, 3), iv(0, 20)]]);
    let r = refine_conditional_constraints_addvars_sub_const(&mut t, &[(0, vec![1, 2], 10)]);
    assert_eq!(r, MayBeFlag::MayBe);
    assert_eq!(t.data[0][2], iv(7, 7));
}

#[test]
fn zero_test_sees_multiples_below_zero() {
    let a = AbstractInterval { lo: -4, hi: -3 };
    assert_eq!(a.is_zero(3), MayBeFlag::MayBe);
    assert_eq!(a.is_non_zero(3), MayBeFlag::MayBe);
    assert!(a.has_multiple_in_range(3));
    let b = AbstractInterval { lo: -5, hi: -4 };
    assert_eq!(b.is_zero(3), MayBeFlag::False);
    assert_eq!(b.is_non_zero(3), MayBeFlag::True);
    assert_eq!(AbstractInterval { lo: -6, hi: -6 }.is_zero(3), MayBeFlag::True);
    assert_eq!(AbstractInterval { lo: 4, hi: 5 }.is_zero(3), MayBeFlag::False);
    assert_eq!(AbstractInterval { lo: 4, hi: 6 }.is_zero(3), MayBeFlag::MayBe);
    assert_eq!(AbstractInterval { lo: i128::MIN, hi: i128::MIN + 1 }.is_zero(1), MayBeFlag::MayBe);
}

#[test]
fn word_evaluation_contains_concrete_values() {
    let word = |i: usize| ExprWord {
        l0: Box::new(curr(i)),
        l1: Box::new(konst(0)),
        l2: Box::new(konst(0)),
        l3: Box::new(konst(0)),
    };
    let row = vec![iv(5, 10), iv(3, 5)];
    let sle = ZEBRASymbolicExpr::WordSLe(word(0), word(1));
    let v = sle.eval(&row, None, None, true, false, true, 97);
    assert_eq!(v, iv(0, 1));
    let or = ZEBRASymbolicExpr::WordOr(word(0), word(1));
    let o = or.eval(&row, None, None, true, false, true, 97);
    let mul = ZEBRASymbolicExpr::WordMul(word(0), word(1));
    let m = mul.eval(&row, None, None, true, false, true, 97);
    for x in 5..=10i128 {
        for y in 3..=5i128 {
            assert!(o.lo <= (x | y) && (x | y) <= o.hi);
            assert!(m.lo <= x * y && x * y <= m.hi);
            let le = if x <= y { 1 } else { 0 };
            assert!(v.lo <= le && le <= v.hi);
        }
    }
}

#[test]
fn zero_test_of_a_difference_below_zero_keeps_the_constraint() {
    // x - 5 with x in [1, 2] is [-4, -3]; -3 is zero in the field of size 3.
    let e = ZEBRASymbolicExpr::Sub(Box::new(curr(0)), Box::new(konst(5)));
    let v = e.eval(&vec![iv(1, 2)], None, None, true, false, true, 3);
    assert_eq!(v, iv(-4, -3));
    assert_eq!(v.is_zero(3), MayBeFlag::MayBe);
}

#[test]
fn high_product_words_take_the_top_32_bits() {
    let row = vec![iv(65536, 65536), iv(65536, 196608)];
    let hi = ZEBRASymbolicExpr::MulHiUU(Box::new(curr(0)), Box::new(curr(1)));
    assert_eq!(hi.eval(&row, None, None, true, false, true, 2013265921), iv(1, 3));
    let lo = ZEBRASymbolicExpr::MulLo(Box::new(curr(0)), Box::new(curr(1)));
    let l = lo.eval(&row, None, None, true, false, true, 2013265921);
    assert!(l.lo <= 0 && 0 <= l.hi);
    let lt = ZEBRASymbolicExpr::Lt(Box::new(curr(0)), Box::new(curr(1)));
    assert_eq!(lt.eval(&row, None, None, true, false, true, 2013265921), iv(0, 1));
}
