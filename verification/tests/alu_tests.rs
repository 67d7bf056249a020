use latticevm::alu::{
    ai, byte, full_word, word_add, word_div, word_ltu, word_mul, word_mulhs, word_mulhu,
    word_sdiv, word_slt, word_to_unsigned, Word, WORD_BOUND,
};
#[test]
fn alu_test_add_no_wrap() {
    let a: Word = [byte(1), byte(0), byte(0), byte(0)];
    let b: Word = [byte(2), byte(0), byte(0), byte(0)];

    let r = word_add(&a, &b);
    assert_eq!(r, ai(3, 3));
}

#[test]
fn alu_test_add_wrap_to_full() {
    let a: Word = [byte(255), byte(255), byte(255), byte(255)];
    let b: Word = [byte(1), byte(0), byte(0), byte(0)];

    let r = word_add(&a, &b);
    assert_eq!(r, ai(0, (1 << 32) - 1));
}

#[test]
fn alu_test_mul_no_overflow() {
    let a: Word = [byte(2), byte(0), byte(0), byte(0)];
    let b: Word = [byte(3), byte(0), byte(0), byte(0)];

    let r = word_mul(&a, &b);
    assert_eq!(r, ai(6, 6));
}

#[test]
fn alu_test_mul_overflow_full() {
    let a: Word = [byte(255), byte(255), byte(255), byte(255)];
    let b: Word = [byte(2), byte(0), byte(0), byte(0)];

    let r = word_mul(&a, &b);
    assert_eq!(r, ai(0, (1 << 32) - 1));
}

#[test]
fn alu_test_mulhu_simple() {
    let a: Word = [byte(0), byte(0), byte(0), byte(1)];
    let b: Word = [byte(0), byte(0), byte(0), byte(1)];

    let r = word_mulhu(&a, &b);
    assert_eq!(r, ai(1 << 16, 1 << 16));
}

#[test]
fn alu_test_mulhu_max() {
    let a: Word = [byte(255), byte(255), byte(255), byte(255)];
    let b: Word = [byte(255), byte(255), byte(255), byte(255)];

    let r = word_mulhu(&a, &b);
    println!("r is {}", r.render());
    assert!(r.lo >= 0);
    assert!(r.hi <= (1 << 32) - 1);
}

#[test]
fn alu_test_mulhs_positive() {
    let a: Word = [byte(2), byte(0), byte(0), byte(0)];
    let b: Word = [byte(3), byte(0), byte(0), byte(0)];

    let r = word_mulhs(&a, &b);
    assert_eq!(r, ai(0, 0));
}

#[test]
fn alu_test_mulhs_negative() {
    let a: Word = [byte(255), byte(255), byte(255), byte(255)];
    let b: Word = [byte(2), byte(0), byte(0), byte(0)];

    let r = word_mulhs(&a, &b);
    assert!(r.lo <= -1);
    assert!(r.hi <= 0);
}

#[test]
fn alu_test_div_simple() {
    let a: Word = [byte(10), byte(0), byte(0), byte(0)];
    let b: Word = [byte(2), byte(0), byte(0), byte(0)];

    let r = word_div(&a, &b);
    assert_eq!(r, ai(5, 5));
}

#[test]
fn alu_test_div_by_zero_full() {
    let a: Word = [byte(10), byte(0), byte(0), byte(0)];
    let b: Word = [byte(0), byte(0), byte(0), byte(0)];

    let r = word_div(&a, &b);
    assert_eq!(r, ai(0, (1 << 32) - 1));
}

#[test]
fn alu_test_sdiv_positive() {
    let a: Word = [byte(10), byte(0), byte(0), byte(0)];
    let b: Word = [byte(2), byte(0), byte(0), byte(0)];

    let r = word_sdiv(&a, &b);
    assert_eq!(r, ai(5, 5));
}

#[test]
fn alu_test_sdiv_negative() {
    let a: Word = [byte(246), byte(255), byte(255), byte(255)];
    let b: Word = [byte(2), byte(0), byte(0), byte(0)];

    let r = word_sdiv(&a, &b);
    assert!(r.lo <= -5);
    assert!(r.hi <= -5);
}

#[test]
fn alu_test_sdiv_zero_divisor_full() {
    let a: Word = [byte(1), byte(0), byte(0), byte(0)];
    let b: Word = [ai(-1, 1), byte(0), byte(0), byte(0)];

    let r = word_sdiv(&a, &b);
    assert_eq!(r, ai(0, (1 << 32) - 1));
}

#[test]
fn alu_test_ltu_true() {
    let a: Word = [byte(1), byte(0), byte(0), byte(0)];
    let b: Word = [byte(2), byte(0), byte(0), byte(0)];

    assert_eq!(word_ltu(&a, &b), ai(1, 1));
}

#[test]
fn alu_test_ltu_false() {
    let a: Word = [byte(5), byte(0), byte(0), byte(0)];
    let b: Word = [byte(2), byte(0), byte(0), byte(0)];

    assert_eq!(word_ltu(&a, &b), ai(0, 0));
}

#[test]
fn alu_test_slt_negative_vs_positive() {
    let a: Word = [byte(255), byte(255), byte(255), byte(255)];
    let b: Word = [byte(1), byte(0), byte(0), byte(0)];

    assert_eq!(word_slt(&a, &b), ai(1, 1));
}

fn word_range(lo: i64, hi: i64) -> Word {
    [ai(lo, hi), byte(0), byte(0), byte(0)]
}

#[test]
fn alu_test_add_interval_progression() {
    let a = word_range(1, 2);
    let b = word_range(10, 20);
    assert_eq!(word_add(&a, &b), ai(11, 22));

    let a_near = [ai(255, 255), ai(255, 255), ai(255, 255), ai(240, 245)];
    let b_small = word_range(1, 4);
    let r = word_add(&a_near, &b_small);
    assert!(r.hi < WORD_BOUND);
    assert_eq!(r.lo, word_to_unsigned(&a_near).lo + 1);

    let a_overflow = [ai(255, 255), ai(255, 255), ai(255, 255), ai(250, 255)];
    let b_overflow = word_range(10, 20);
    assert_eq!(word_add(&a_overflow, &b_overflow), full_word());
}

#[test]
fn alu_test_mul_interval_growth() {
    let a = word_range(2, 3);
    let b = word_range(4, 5);
    assert_eq!(word_mul(&a, &b), ai(8, 15));

    let a_big = word_range(100, 200);
    let b_big = [ai(0, 255), ai(0, 255), ai(0, 255), ai(0, 255)];
    assert_eq!(word_mul(&a_big, &b_big), full_word());
}

#[test]
fn alu_test_mulhs_signed_intervals() {
    let a = word_range(10, 20);
    let b = [ai(254, 255), ai(255, 255), ai(255, 255), ai(255, 255)];
    let r = word_mulhs(&a, &b);
    assert!(r.lo <= r.hi);
    assert!(r.hi <= 0);
    assert_eq!(r.lo, -1);
    assert_eq!(r.hi, -1);
}

#[test]
fn alu_test_div_interval_ranges() {
    let a = word_range(100, 200);
    let b = word_range(2, 10);
    assert_eq!(word_div(&a, &b), ai(10, 100));

    let b_zero = word_range(0, 5);
    assert_eq!(word_div(&a, &b_zero), full_word());
}

#[test]
fn alu_test_sdiv_complex_ranges() {
    let a = ai(-(1 << 10), 1 << 10);
    let b = ai(2, 2);
    let candidates = [a.lo / b.lo, a.lo / b.hi, a.hi / b.lo, a.hi / b.hi];
    let lo = *candidates.iter().min().unwrap();
    let hi = *candidates.iter().max().unwrap();
    assert_eq!(lo, -512);
    assert_eq!(hi, 512);
}

#[test]
fn alu_test_comparison_uncertainty() {
    let a = word_range(10, 20);
    let b = word_range(30, 40);
    assert_eq!(word_ltu(&a, &b), ai(1, 1));

    let a = word_range(50, 60);
    let b = word_range(10, 20);
    assert_eq!(word_ltu(&a, &b), ai(0, 0));

    let a = word_range(15, 25);
    let b = word_range(20, 30);
    assert_eq!(word_ltu(&a, &b), ai(0, 1));
}
