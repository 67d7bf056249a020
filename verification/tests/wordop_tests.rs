use latticevm::interval::AbstractInterval;
use latticevm::wordop::{
    full_word, word_add, word_and, word_div, word_eq, word_ltu, word_mul, word_mulhs, word_mulhu, word_neq, word_or, word_sdiv, word_sle, word_slt, word_srl, word_sub, word_to_unsigned, word_xor, WORD_BOUND, Word,
};
fn signed_word(val_lo: i128, val_hi: i128) -> Word {
    let top = if val_lo < 0 { 255 } else { 0 };
    [
        ai(val_lo & 0xFF, val_hi & 0xFF),
        byte(top),
        byte(top),
        byte(top),
    ]
}

fn ai(lo: i128, hi: i128) -> AbstractInterval {
    AbstractInterval { lo, hi }
}

fn byte(v: i128) -> AbstractInterval {
    ai(v, v)
}

fn word_range(lo: i128, hi: i128) -> Word {
    [ai(lo, hi), byte(0), byte(0), byte(0)]
}

#[test]
fn wordop_test_add_no_wrap() {
    let a: Word = [byte(1), byte(0), byte(0), byte(0)];
    let b: Word = [byte(2), byte(0), byte(0), byte(0)];

    let r = word_add(&a, &b);
    assert_eq!(r, ai(3, 3));
}

#[test]
fn wordop_test_add_wrap_to_full() {
    let a: Word = [byte(255), byte(255), byte(255), byte(255)];
    let b: Word = [byte(1), byte(0), byte(0), byte(0)];

    let r = word_add(&a, &b);
    assert_eq!(r, ai(0, (1 << 32) - 1));
}

#[test]
fn test_sub_no_wrap_exact() {
    let a = word_range(20, 20);
    let b = word_range(5, 5);

    let r = word_sub(&a, &b);
    assert_eq!(r, ai(15, 15));
}

#[test]
fn test_sub_interval_progression() {
    let a = word_range(10, 20);
    let b = word_range(1, 3);

    let r = word_sub(&a, &b);
    assert_eq!(r, ai(7, 19));
}

#[test]
fn test_sub_near_boundary_no_wrap() {
    let a = word_range(100, 110);
    let b = word_range(10, 20);

    let r = word_sub(&a, &b);
    assert_eq!(r, ai(80, 100));
}

#[test]
fn test_sub_definite_underflow() {
    let a = word_range(5, 10);
    let b = word_range(20, 30);

    let r = word_sub(&a, &b);
    assert_eq!(r, full_word());
}

#[test]
fn test_sub_partial_underflow() {
    let a = word_range(10, 20);
    let b = word_range(15, 25);

    let r = word_sub(&a, &b);
    assert_eq!(r, full_word());
}

#[test]
fn wordop_test_mul_no_overflow() {
    let a: Word = [byte(2), byte(0), byte(0), byte(0)];
    let b: Word = [byte(3), byte(0), byte(0), byte(0)];

    let r = word_mul(&a, &b);
    assert_eq!(r, ai(6, 6));
}

#[test]
fn test_mul_no_overflow2() {
    let a: Word = [byte(3), byte(0), byte(0), byte(60)];
    let b: Word = [byte(4), byte(0), byte(0), byte(0)];

    let r = word_mul(&a, &b);
    assert_eq!(r, ai(4026531852, 4026531852));
}

#[test]
fn wordop_test_mul_overflow_full() {
    let a: Word = [byte(255), byte(255), byte(255), byte(255)];
    let b: Word = [byte(2), byte(0), byte(0), byte(0)];

    let r = word_mul(&a, &b);
    assert_eq!(r, ai(0, (1 << 32) - 1));
}

#[test]
fn wordop_test_mulhu_simple() {
    let a: Word = [byte(0), byte(0), byte(0), byte(1)];
    let b: Word = [byte(0), byte(0), byte(0), byte(1)];

    let r = word_mulhu(&a, &b);
    assert_eq!(r, ai(1 << 16, 1 << 16));
}

#[test]
fn wordop_test_mulhu_max() {
    let a: Word = [byte(255), byte(255), byte(255), byte(255)];
    let b: Word = [byte(255), byte(255), byte(255), byte(255)];

    let r = word_mulhu(&a, &b);
    println!("r is {}", r.render());
    assert!(r.lo >= 0);
    assert!(r.hi <= (1 << 32) - 1);
}

#[test]
fn wordop_test_mulhs_positive() {
    let a: Word = [byte(2), byte(0), byte(0), byte(0)];
    let b: Word = [byte(3), byte(0), byte(0), byte(0)];

    let r = word_mulhs(&a, &b);
    assert_eq!(r, ai(0, 0));
}

#[test]
fn wordop_test_mulhs_negative() {
    let a: Word = [byte(255), byte(255), byte(255), byte(255)];
    let b: Word = [byte(2), byte(0), byte(0), byte(0)];

    let r = word_mulhs(&a, &b);
    assert!(r.lo <= -1);
    assert!(r.hi <= 0);
}

#[test]
fn wordop_test_div_simple() {
    let a: Word = [byte(10), byte(0), byte(0), byte(0)];
    let b: Word = [byte(2), byte(0), byte(0), byte(0)];

    let r = word_div(&a, &b);
    assert_eq!(r, ai(5, 5));
}

#[test]
fn wordop_test_div_by_zero_full() {
    let a: Word = [byte(10), byte(0), byte(0), byte(0)];
    let b: Word = [byte(0), byte(0), byte(0), byte(0)];

    let r = word_div(&a, &b);
    assert_eq!(r, ai(0, (1 << 32) - 1));
}

#[test]
fn wordop_test_sdiv_positive() {
    let a: Word = [byte(10), byte(0), byte(0), byte(0)];
    let b: Word = [byte(2), byte(0), byte(0), byte(0)];

    let r = word_sdiv(&a, &b);
    assert_eq!(r, ai(5, 5));
}

#[test]
fn wordop_test_sdiv_negative() {
    let a: Word = [byte(246), byte(255), byte(255), byte(255)];
    let b: Word = [byte(2), byte(0), byte(0), byte(0)];

    let r = word_sdiv(&a, &b);
    assert!(r.lo <= -5);
    assert!(r.hi <= -5);
}

#[test]
fn wordop_test_sdiv_zero_divisor_full() {
    let a: Word = [byte(1), byte(0), byte(0), byte(0)];
    let b: Word = [ai(-1, 1), byte(0), byte(0), byte(0)];

    let r = word_sdiv(&a, &b);
    assert_eq!(r, ai(0, (1 << 32) - 1));
}

#[test]
fn wordop_test_ltu_true() {
    let a: Word = [byte(1), byte(0), byte(0), byte(0)];
    let b: Word = [byte(2), byte(0), byte(0), byte(0)];

    assert_eq!(word_ltu(&a, &b), ai(1, 1));
}

#[test]
fn wordop_test_ltu_false() {
    let a: Word = [byte(5), byte(0), byte(0), byte(0)];
    let b: Word = [byte(2), byte(0), byte(0), byte(0)];

    assert_eq!(word_ltu(&a, &b), ai(0, 0));
}

#[test]
fn wordop_test_slt_negative_vs_positive() {
    let a: Word = [byte(255), byte(255), byte(255), byte(255)];
    let b: Word = [byte(1), byte(0), byte(0), byte(0)];

    assert_eq!(word_slt(&a, &b), ai(1, 1));
}

#[test]
fn wordop_test_add_interval_progression() {
    let a = word_range(1, 2);
    let b = word_range(10, 20);
    assert_eq!(word_add(&a, &b), ai(11, 22));

    let a_near = [ai(255, 255), ai(255, 255), ai(255, 255), ai(240, 245)];
    let b_small = word_range(1, 4);
    let r = word_add(&a_near, &b_small);
    assert!(r.hi < WORD_BOUND);
    assert_eq!(r.lo, word_to_unsigned(&a_near).lo + 1);

    let a_overflow = [ai(255, 255), ai(255, 255), ai(255, 255), ai(250, 255)];
    let b_overflow = word_range(10, 20);
    assert_eq!(word_add(&a_overflow, &b_overflow), full_word());
}

#[test]
fn wordop_test_mul_interval_growth() {
    let a = word_range(2, 3);
    let b = word_range(4, 5);
    assert_eq!(word_mul(&a, &b), ai(8, 15));

    let a_big = word_range(100, 200);
    let b_big = [ai(0, 255), ai(0, 255), ai(0, 255), ai(0, 255)];
    assert_eq!(word_mul(&a_big, &b_big), full_word());
}

#[test]
fn wordop_test_mulhs_signed_intervals() {
    let a = word_range(10, 20);
    let b = [ai(254, 255), ai(255, 255), ai(255, 255), ai(255, 255)];
    let r = word_mulhs(&a, &b);
    assert!(r.lo <= r.hi);
    assert!(r.hi <= 0);
    assert_eq!(r.lo, -1);
    assert_eq!(r.hi, -1);
}

#[test]
fn wordop_test_div_interval_ranges() {
    let a = word_range(100, 200);
    let b = word_range(2, 10);
    assert_eq!(word_div(&a, &b), ai(10, 100));

    let b_zero = word_range(0, 5);
    assert_eq!(word_div(&a, &b_zero), full_word());
}

#[test]
fn wordop_test_sdiv_complex_ranges() {
    let a = ai(-(1 << 10), 1 << 10);
    let b = ai(2, 2);
    let candidates = [a.lo / b.lo, a.lo / b.hi, a.hi / b.lo, a.hi / b.hi];
    let lo = *candidates.iter().min().unwrap();
    let hi = *candidates.iter().max().unwrap();
    assert_eq!(lo, -512);
    assert_eq!(hi, 512);
}

#[test]
fn wordop_test_comparison_uncertainty() {
    let a = word_range(10, 20);
    let b = word_range(30, 40);
    assert_eq!(word_ltu(&a, &b), ai(1, 1));

    let a = word_range(50, 60);
    let b = word_range(10, 20);
    assert_eq!(word_ltu(&a, &b), ai(0, 0));

    let a = word_range(15, 25);
    let b = word_range(20, 30);
    assert_eq!(word_ltu(&a, &b), ai(0, 1));
}

#[test]
fn test_slt_definitely_less() {
    let a = signed_word(1, 5);
    let b = signed_word(10, 15);
    assert_eq!(
        word_slt(&a, &b),
        ai(1, 1),
        "Positive range: A < B should be True"
    );

    let a_neg = [ai(240, 250), byte(255), byte(255), byte(255)];
    let b_pos = [ai(1, 5), byte(0), byte(0), byte(0)];
    assert_eq!(
        word_slt(&a_neg, &b_pos),
        ai(1, 1),
        "Negative A < Positive B should be True"
    );

    let a_neg_far = [ai(200, 210), byte(255), byte(255), byte(255)];
    let b_neg_near = [ai(240, 250), byte(255), byte(255), byte(255)];
    assert_eq!(word_slt(&a_neg_far, &b_neg_near), ai(1, 1));
}

#[test]
fn test_slt_definitely_greater_or_equal() {
    let a = signed_word(20, 30);
    let b = signed_word(5, 10);
    assert_eq!(word_slt(&a, &b), ai(0, 0));

    let a_pos = [ai(1, 5), byte(0), byte(0), byte(0)];
    let b_neg = [ai(240, 250), byte(255), byte(255), byte(255)];
    assert_eq!(word_slt(&a_pos, &b_neg), ai(0, 0));
}

#[test]
fn test_slt_overlap_unknown() {
    let a = signed_word(5, 15);
    let b = signed_word(10, 20);
    assert_eq!(
        word_slt(&a, &b),
        ai(0, 1),
        "Overlapping ranges should return [0, 1]"
    );

    let a_edge = signed_word(5, 10);
    let b_edge = signed_word(10, 15);
    assert_eq!(word_slt(&a_edge, &b_edge), ai(0, 1));

    let a_inner = signed_word(10, 12);
    let b_outer = signed_word(5, 20);
    assert_eq!(word_slt(&a_inner, &b_outer), ai(0, 1));
}

#[test]
fn test_slt_max_min_bounds() {
    let i32_min = [byte(0), byte(0), byte(0), byte(128)];
    let zero = [byte(0), byte(0), byte(0), byte(0)];

    assert_eq!(word_slt(&i32_min, &zero), ai(1, 1));

    assert_eq!(word_slt(&zero, &i32_min), ai(0, 0));
}

#[test]
fn test_word_and_comprehensive() {
    let a = word_range(12, 12);
    let b = word_range(10, 10);
    assert_eq!(word_and(&a, &b), ai(8, 8));

    let a_range = word_range(0, 255);
    let b_zero = word_range(0, 0);
    assert_eq!(word_and(&a_range, &b_zero), ai(0, 0));

    let b_range = word_range(0, 7);
    assert_eq!(word_and(&a_range, &b_range), ai(0, 7));
}

#[test]
fn test_word_or_comprehensive() {
    let a = word_range(12, 12);
    let b = word_range(3, 3);
    assert_eq!(word_or(&a, &b), ai(15, 15));

    let a_r = word_range(1, 2);
    let b_r = word_range(4, 8);
    let res = word_or(&a_r, &b_r);
    assert!(res.lo >= 4);
    assert!(res.hi <= 15);
}

#[test]
fn test_word_xor_comprehensive() {
    let a = word_range(10, 10);
    assert_eq!(word_xor(&a, &a), ai(0, 0));

    let b = word_range(5, 5);
    assert_eq!(word_xor(&a, &b), ai(15, 15));

    let a_r = word_range(0, 3);
    let res = word_xor(&a_r, &a_r);
    assert_eq!(res.lo, 0);
    assert!(res.hi >= 3);
}

#[test]
fn test_bitwise_word_boundaries() {
    let all_ones = [byte(255), byte(255), byte(255), byte(255)];
    let zero = [byte(0), byte(0), byte(0), byte(0)];

    assert_eq!(word_and(&all_ones, &zero), ai(0, 0));

    assert_eq!(word_or(&zero, &all_ones), ai((1 << 32) - 1, (1 << 32) - 1));

    assert_eq!(word_xor(&all_ones, &all_ones), ai(0, 0));
}

#[test]
fn test_eq_exact_true() {
    let a = word_range(10, 10);
    let b = word_range(10, 10);

    assert_eq!(word_eq(&a, &b), ai(1, 1));
    assert_eq!(word_neq(&a, &b), ai(0, 0));
}

#[test]
fn test_eq_exact_false() {
    let a = word_range(1, 5);
    let b = word_range(10, 20);

    assert_eq!(word_eq(&a, &b), ai(0, 0));
    assert_eq!(word_neq(&a, &b), ai(1, 1));
}

#[test]
fn test_eq_overlap_uncertain() {
    let a = word_range(5, 15);
    let b = word_range(10, 20);

    assert_eq!(word_eq(&a, &b), ai(0, 1));
    assert_eq!(word_neq(&a, &b), ai(0, 1));
}

#[test]
fn test_eq_concrete() {
    let a: Word = [byte(42), byte(0), byte(0), byte(0)];
    let b: Word = [byte(42), byte(0), byte(0), byte(0)];

    assert_eq!(word_eq(&a, &b), ai(1, 1));
}

#[test]
fn test_neq_concrete() {
    let a: Word = [byte(1), byte(0), byte(0), byte(0)];
    let b: Word = [byte(2), byte(0), byte(0), byte(0)];

    assert_eq!(word_eq(&a, &b), ai(0, 0));
    assert_eq!(word_neq(&a, &b), ai(1, 1));
}

#[test]
fn test_srl_singleton() {
    let a = word_range(16, 16);
    let b = word_range(2, 2);
    assert_eq!(word_srl(&a, &b), ai(4, 4));
}

#[test]
fn test_srl_range_value() {
    let a = word_range(16, 32);
    let b = word_range(1, 1);
    assert_eq!(word_srl(&a, &b), ai(8, 16));
}

#[test]
fn test_srl_range_shift_amount() {
    let a = word_range(100, 100);
    let b = word_range(1, 2);
    assert_eq!(word_srl(&a, &b), ai(25, 50));
}

#[test]
fn test_srl_both_ranges() {
    let a = word_range(10, 20);
    let b = word_range(1, 2);
    assert_eq!(word_srl(&a, &b), ai(2, 10));
}

#[test]
fn test_srl_overflow_shift_amount() {
    let a = word_range(100, 200);
    let b = word_range(32, 64);
    assert_eq!(word_srl(&a, &b), ai(0, 0));

    let b_cross = word_range(31, 33);
    assert_eq!(word_srl(&word_range(100, 100), &b_cross), ai(0, 0));
}

#[test]
fn test_srl_large_values() {
    let a = [byte(255), byte(255), byte(255), byte(255)];
    let b = word_range(31, 31);
    assert_eq!(word_srl(&a, &b), ai(1, 1));
}

#[test]
fn sle_allows_equality_at_the_ends() {
    assert_eq!(word_sle(&word_range(5, 10), &word_range(3, 5)), ai(0, 1));
    assert_eq!(word_sle(&word_range(6, 10), &word_range(3, 5)), ai(0, 0));
    assert_eq!(word_sle(&word_range(3, 5), &word_range(5, 10)), ai(1, 1));
    assert_eq!(word_slt(&word_range(5, 10), &word_range(3, 5)), ai(0, 0));
}

#[test]
fn bitwise_words_hold_concrete_results() {
    let a = word_range(5, 12);
    let b = word_range(3, 9);
    for x in 5..=12i128 {
        for y in 3..=9i128 {
            let and = word_and(&a, &b);
            let or = word_or(&a, &b);
            let xor = word_xor(&a, &b);
            assert!(and.lo <= (x & y) && (x & y) <= and.hi);
            assert!(or.lo <= (x | y) && (x | y) <= or.hi);
            assert!(xor.lo <= (x ^ y) && (x ^ y) <= xor.hi);
        }
    }
    assert_eq!(word_or(&a, &b), ai(5, 15));
    assert_eq!(word_xor(&a, &b), ai(0, 15));
    assert_eq!(word_and(&a, &b), ai(0, 9));
}

#[test]
fn shift_high_product_and_quotient_hold_concrete_results() {
    let a = word_range(100, 200);
    let s = word_range(1, 3);
    assert_eq!(word_srl(&a, &s), ai(12, 100));
    for x in 100..=200i128 {
        for k in 1..=3u32 {
            let r = x >> k;
            assert!(12 <= r && r <= 100);
        }
    }
    let big: Word = [byte(0), byte(0), byte(0), ai(1, 2)];
    assert_eq!(word_mulhu(&big, &big), ai(65536, 262144));
    assert_eq!(word_div(&word_range(100, 200), &word_range(3, 7)), ai(14, 66));
}

#[test]
fn signed_high_product_and_quotient_hold_concrete_results() {
    let a = signed_word(-3, -1);
    let b = word_range(2, 4);
    let h = word_mulhs(&a, &b);
    let q = word_sdiv(&word_range(7, 20), &word_range(2, 3));
    assert_eq!(q, ai(2, 10));
    for x in -3..=-1i128 {
        for y in 2..=4i128 {
            let hp = (x * y).div_euclid(1 << 32);
            assert!(h.lo <= hp && hp <= h.hi);
        }
    }
    for x in 7..=20i128 {
        for y in 2..=3i128 {
            assert!(q.lo <= x / y && x / y <= q.hi);
        }
    }
}
