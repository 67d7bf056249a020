use vstd::prelude::*;

use crate::interval::{in_i128, lemma_div_in_range, mask_cover, max4, min4, trunc_div, trunc_div_any, AbstractInterval};
use crate::interval_laws::law_mul_sound;
use crate::wordop::{
    spec_word_add, spec_word_addu, spec_word_subu, spec_word_eq, spec_word_ltu, spec_word_mul, spec_word_neq, spec_word_sub,
    lemma_signed_range, signed_corner_max, signed_corner_min, spec_full_word, spec_word_sdiv, word_sdiv_ok, WORD_VALUE_BOUND, spec_word_and, spec_word_div, spec_word_mulhs, spec_word_mult, spec_word_multu, word_signed_mul_ok, spec_word_mulhu, spec_word_or, spec_word_srl, word_srl_ok, spec_word_sle, spec_word_slt, spec_word_to_unsigned, spec_word_xor, word_mul_ok, word_ok, word_signed_ok, Word, WORD_BITS, WORD_BOUND,
};

verus! {

/// The unsigned value of four bytes, least significant first.
pub open spec fn bytes_value(x: (int, int, int, int)) -> int {
    x.0 + 256 * x.1 + 65536 * x.2 + 16777216 * x.3
}

/// The bytes `x` are a member of the word `w`: each byte lies in its limb.
pub open spec fn bytes_in_word(w: Word, x: (int, int, int, int)) -> bool {
    &&& 0 <= x.0 <= 255 && w[0].lo <= x.0 <= w[0].hi
    &&& 0 <= x.1 <= 255 && w[1].lo <= x.1 <= w[1].hi
    &&& 0 <= x.2 <= 255 && w[2].lo <= x.2 <= w[2].hi
    &&& 0 <= x.3 <= 255 && w[3].lo <= x.3 <= w[3].hi
}

/// `v` lies in the interval.
pub open spec fn member(iv: AbstractInterval, v: int) -> bool {
    iv.lo <= v <= iv.hi
}

proof fn lemma_value_in_unsigned(w: Word, x: (int, int, int, int))
    requires
        word_ok(w),
        bytes_in_word(w, x),
    ensures
        member(spec_word_to_unsigned(w), bytes_value(x)),
        0 <= bytes_value(x) < WORD_BOUND,
{
}

proof fn lemma_mod_word(v: int)
    ensures
        0 <= v % (WORD_BOUND as int) < WORD_BOUND,
        0 <= v < WORD_BOUND ==> v % (WORD_BOUND as int) == v,
{
    assert(0 <= v % 4294967296 < 4294967296) by (nonlinear_arith);
    if 0 <= v < WORD_BOUND {
        assert(v % 4294967296 == v) by (nonlinear_arith)
            requires
                0 <= v < 4294967296,
        ;
    }
}

/// The 32-bit sum of members of two words lies in their abstract sum.
pub proof fn law_word_add_sound(a: Word, b: Word, x: (int, int, int, int), y: (int, int, int, int))
    requires
        word_ok(a),
        word_ok(b),
        bytes_in_word(a, x),
        bytes_in_word(b, y),
    ensures
        member(spec_word_add(a, b), (bytes_value(x) + bytes_value(y)) % (WORD_BOUND as int)),
{
    lemma_value_in_unsigned(a, x);
    lemma_value_in_unsigned(b, y);
    lemma_mod_word(bytes_value(x) + bytes_value(y));
}

/// The 32-bit difference of members of two words lies in their abstract
/// difference.
pub proof fn law_word_sub_sound(a: Word, b: Word, x: (int, int, int, int), y: (int, int, int, int))
    requires
        word_ok(a),
        word_ok(b),
        bytes_in_word(a, x),
        bytes_in_word(b, y),
    ensures
        member(spec_word_sub(a, b), (bytes_value(x) - bytes_value(y)) % (WORD_BOUND as int)),
{
    lemma_value_in_unsigned(a, x);
    lemma_value_in_unsigned(b, y);
    lemma_mod_word(bytes_value(x) - bytes_value(y));
}

/// The low 32 bits of the product of members of two words of non-negative
/// limbs lie in their abstract product.
pub proof fn law_word_mul_sound(a: Word, b: Word, x: (int, int, int, int), y: (int, int, int, int))
    requires
        word_ok(a),
        word_ok(b),
        bytes_in_word(a, x),
        bytes_in_word(b, y),
        a[0].lo >= 0 && a[1].lo >= 0 && a[2].lo >= 0 && a[3].lo >= 0,
        b[0].lo >= 0 && b[1].lo >= 0 && b[2].lo >= 0 && b[3].lo >= 0,
    ensures
        member(spec_word_mul(a, b), (bytes_value(x) * bytes_value(y)) % (WORD_BOUND as int)),
{
    lemma_value_in_unsigned(a, x);
    lemma_value_in_unsigned(b, y);
    let ua = spec_word_to_unsigned(a);
    let ub = spec_word_to_unsigned(b);
    let vx = bytes_value(x);
    let vy = bytes_value(y);
    assert(0 <= ua.lo && 0 <= ub.lo);
    assert(ua.lo * ub.lo <= vx * vy <= ua.hi * ub.hi) by (nonlinear_arith)
        requires
            0 <= ua.lo <= vx <= ua.hi,
            0 <= ub.lo <= vy <= ub.hi,
    ;
    assert(0 <= vx * vy) by (nonlinear_arith)
        requires
            0 <= vx,
            0 <= vy,
    ;
    if ua.hi * ub.hi < WORD_BOUND {
        assert((vx * vy) % (WORD_BOUND as int) == vx * vy) by (nonlinear_arith)
            requires
                0 <= vx * vy < WORD_BOUND,
        ;
    }
}

/// The unsigned comparison of members of two words lies in the abstract
/// comparison flag.
pub proof fn law_word_ltu_sound(a: Word, b: Word, x: (int, int, int, int), y: (int, int, int, int))
    requires
        word_ok(a),
        word_ok(b),
        bytes_in_word(a, x),
        bytes_in_word(b, y),
    ensures
        member(spec_word_ltu(a, b), if bytes_value(x) < bytes_value(y) { 1 } else { 0 }),
{
    lemma_value_in_unsigned(a, x);
    lemma_value_in_unsigned(b, y);
}

/// The equality of members of two words lies in the abstract equality flag,
/// and their inequality in the abstract inequality flag.
pub proof fn law_word_eq_sound(a: Word, b: Word, x: (int, int, int, int), y: (int, int, int, int))
    requires
        word_ok(a),
        word_ok(b),
        bytes_in_word(a, x),
        bytes_in_word(b, y),
    ensures
        member(spec_word_eq(a, b), if bytes_value(x) == bytes_value(y) { 1 } else { 0 }),
        member(spec_word_neq(a, b), if bytes_value(x) != bytes_value(y) { 1 } else { 0 }),
{
    lemma_value_in_unsigned(a, x);
    lemma_value_in_unsigned(b, y);
}

/// The 32-bit wrapping difference of members of two words lies in their
/// abstract wrapping difference (`word_subu`).
pub proof fn law_word_subu_sound(a: Word, b: Word, x: (int, int, int, int), y: (int, int, int, int))
    requires
        word_ok(a),
        word_ok(b),
        bytes_in_word(a, x),
        bytes_in_word(b, y),
    ensures
        member(spec_word_subu(a, b), (bytes_value(x) - bytes_value(y)) % (WORD_BOUND as int)),
{
    lemma_value_in_unsigned(a, x);
    lemma_value_in_unsigned(b, y);
    let d = bytes_value(x) - bytes_value(y);
    lemma_mod_word(d);
    if d < 0 {
        assert((d + 4294967296) % 4294967296 == d + 4294967296) by (nonlinear_arith)
            requires
                -4294967296 < d < 0,
        ;
        vstd::arithmetic::div_mod::lemma_mod_add_multiples_vanish(d, 4294967296);
    }
}

/// The 32-bit wrapping sum of members of two words lies in their abstract
/// wrapping sum (`word_addu`).
pub proof fn law_word_addu_sound(a: Word, b: Word, x: (int, int, int, int), y: (int, int, int, int))
    requires
        word_ok(a),
        word_ok(b),
        bytes_in_word(a, x),
        bytes_in_word(b, y),
    ensures
        member(spec_word_addu(a, b), (bytes_value(x) + bytes_value(y)) % (WORD_BOUND as int)),
{
    lemma_value_in_unsigned(a, x);
    lemma_value_in_unsigned(b, y);
    let d = bytes_value(x) + bytes_value(y);
    lemma_mod_word(d);
    if d >= 4294967296 {
        assert((d - 4294967296) % 4294967296 == d - 4294967296) by (nonlinear_arith)
            requires
                4294967296 <= d < 8589934592,
        ;
        vstd::arithmetic::div_mod::lemma_mod_sub_multiples_vanish(d, 4294967296);
    }
}

/// The two's complement reading of a 32-bit unsigned value.
pub open spec fn signed_value(v: int) -> int {
    if v >= 2147483648 {
        v - WORD_BOUND
    } else {
        v
    }
}

/// The signed reading of a member of a word lies in the word's signed
/// interval.
proof fn lemma_signed_in(w: Word, x: (int, int, int, int))
    requires
        word_ok(w),
        spec_word_to_unsigned(w).to_signed_ok(WORD_BITS),
        bytes_in_word(w, x),
    ensures
        member(spec_word_to_unsigned(w).spec_to_signed(WORD_BITS), signed_value(bytes_value(x))),
{
    lemma_value_in_unsigned(w, x);
    vstd::arithmetic::power2::lemma2_to64();
}

/// The signed "at most" comparison of members of two words lies in the
/// abstract flag (`word_sle`).
pub proof fn law_word_sle_sound(a: Word, b: Word, x: (int, int, int, int), y: (int, int, int, int))
    requires
        word_signed_ok(a, b),
        bytes_in_word(a, x),
        bytes_in_word(b, y),
    ensures
        member(spec_word_sle(a, b), if signed_value(bytes_value(x)) <= signed_value(bytes_value(y)) { 1 } else { 0 }),
{
    lemma_signed_in(a, x);
    lemma_signed_in(b, y);
}

/// The signed "less than" comparison of members of two words lies in the
/// abstract flag (`word_slt`).
pub proof fn law_word_slt_sound(a: Word, b: Word, x: (int, int, int, int), y: (int, int, int, int))
    requires
        word_signed_ok(a, b),
        bytes_in_word(a, x),
        bytes_in_word(b, y),
    ensures
        member(spec_word_slt(a, b), if signed_value(bytes_value(x)) < signed_value(bytes_value(y)) { 1 } else { 0 }),
{
    lemma_signed_in(a, x);
    lemma_signed_in(b, y);
}

/// The covering mask of `d` is at least `d`.
proof fn lemma_mask_cover_ge(d: nat)
    ensures
        mask_cover(d) >= d,
    decreases d,
{
    if d > 0 {
        lemma_mask_cover_ge(d / 2);
    }
}

/// Values at most a covering mask keep their OR and XOR at most the mask.
proof fn lemma_bits_below_mask(d: nat, x: u128, y: u128)
    requires
        x <= mask_cover(d),
        y <= mask_cover(d),
    ensures
        (x | y) <= mask_cover(d),
        (x ^ y) <= mask_cover(d),
    decreases d,
{
    if d == 0 {
        assert(x == 0 && y == 0);
        assert((0u128 | 0u128) == 0u128 && (0u128 ^ 0u128) == 0u128) by (bit_vector);
    } else {
        let xs = x >> 1u128;
        let ys = y >> 1u128;
        let o = x | y;
        let e = x ^ y;
        assert(xs == x / 2 && ys == y / 2 && o >> 1u128 == o / 2 && e >> 1u128 == e / 2) by (bit_vector)
            requires
                xs == x >> 1u128,
                ys == y >> 1u128,
        ;
        assert(o >> 1u128 == (xs | ys) && e >> 1u128 == (xs ^ ys)) by (bit_vector)
            requires
                xs == x >> 1u128,
                ys == y >> 1u128,
                o == x | y,
                e == x ^ y,
        ;
        lemma_bits_below_mask(d / 2, xs, ys);
    }
}

/// Facts of the bitwise operators on non-negative values below `2^32`.
proof fn lemma_word_bits(vx: i128, vy: i128)
    requires
        0 <= vx < 0x1_0000_0000,
        0 <= vy < 0x1_0000_0000,
    ensures
        0 <= (vx & vy) <= vx && (vx & vy) <= vy,
        vx <= (vx | vy) && vy <= (vx | vy) && (vx | vy) < 0x1_0000_0000,
        0 <= (vx ^ vy) < 0x1_0000_0000,
        (vx | vy) as int == ((vx as u128) | (vy as u128)) as int,
        (vx ^ vy) as int == ((vx as u128) ^ (vy as u128)) as int,
{
    assert(0 <= (vx & vy) <= vx && (vx & vy) <= vy) by (bit_vector)
        requires
            0 <= vx < 0x1_0000_0000,
            0 <= vy < 0x1_0000_0000,
    ;
    assert(vx <= (vx | vy) && vy <= (vx | vy) && (vx | vy) < 0x1_0000_0000) by (bit_vector)
        requires
            0 <= vx < 0x1_0000_0000,
            0 <= vy < 0x1_0000_0000,
    ;
    assert(0 <= (vx ^ vy) < 0x1_0000_0000) by (bit_vector)
        requires
            0 <= vx < 0x1_0000_0000,
            0 <= vy < 0x1_0000_0000,
    ;
    assert((vx | vy) == ((vx as u128) | (vy as u128)) as i128 && (vx ^ vy) == ((vx as u128) ^ (
        vy as u128)) as i128) by (bit_vector)
        requires
            0 <= vx < 0x1_0000_0000,
            0 <= vy < 0x1_0000_0000,
    ;
}

/// The upper ends of two words' unsigned intervals are non-negative when the
/// words have members, and their OR covers both.
proof fn lemma_top_covers(a: Word, b: Word, x: (int, int, int, int), y: (int, int, int, int))
    requires
        word_ok(a),
        word_ok(b),
        bytes_in_word(a, x),
        bytes_in_word(b, y),
    ensures
        ({
            let h = spec_word_to_unsigned(a).hi | spec_word_to_unsigned(b).hi;
            &&& h >= 0
            &&& bytes_value(x) <= mask_cover(h as nat)
            &&& bytes_value(y) <= mask_cover(h as nat)
        }),
{
    lemma_value_in_unsigned(a, x);
    lemma_value_in_unsigned(b, y);
    let ha = spec_word_to_unsigned(a).hi;
    let hb = spec_word_to_unsigned(b).hi;
    let h = ha | hb;
    assert(0 <= h && ha <= h && hb <= h) by (bit_vector)
        requires
            0 <= ha,
            0 <= hb,
            h == ha | hb,
    ;
    lemma_mask_cover_ge(h as nat);
}

/// The bitwise AND of members of two words lies in their abstract AND.
pub proof fn law_word_and_sound(a: Word, b: Word, x: (int, int, int, int), y: (int, int, int, int))
    requires
        word_ok(a),
        word_ok(b),
        bytes_in_word(a, x),
        bytes_in_word(b, y),
    ensures
        member(spec_word_and(a, b), ((bytes_value(x) as i128) & (bytes_value(y) as i128)) as int),
{
    lemma_value_in_unsigned(a, x);
    lemma_value_in_unsigned(b, y);
    lemma_word_bits(bytes_value(x) as i128, bytes_value(y) as i128);
}

/// The bitwise OR of members of two words lies in their abstract OR.
pub proof fn law_word_or_sound(a: Word, b: Word, x: (int, int, int, int), y: (int, int, int, int))
    requires
        word_ok(a),
        word_ok(b),
        bytes_in_word(a, x),
        bytes_in_word(b, y),
    ensures
        member(spec_word_or(a, b), ((bytes_value(x) as i128) | (bytes_value(y) as i128)) as int),
{
    lemma_value_in_unsigned(a, x);
    lemma_value_in_unsigned(b, y);
    let vx = bytes_value(x) as i128;
    let vy = bytes_value(y) as i128;
    lemma_word_bits(vx, vy);
    lemma_top_covers(a, b, x, y);
    let h = spec_word_to_unsigned(a).hi | spec_word_to_unsigned(b).hi;
    lemma_bits_below_mask(h as nat, vx as u128, vy as u128);
}

/// The bitwise XOR of members of two words lies in their abstract XOR.
pub proof fn law_word_xor_sound(a: Word, b: Word, x: (int, int, int, int), y: (int, int, int, int))
    requires
        word_ok(a),
        word_ok(b),
        bytes_in_word(a, x),
        bytes_in_word(b, y),
    ensures
        member(spec_word_xor(a, b), ((bytes_value(x) as i128) ^ (bytes_value(y) as i128)) as int),
{
    lemma_value_in_unsigned(a, x);
    lemma_value_in_unsigned(b, y);
    let vx = bytes_value(x) as i128;
    let vy = bytes_value(y) as i128;
    lemma_word_bits(vx, vy);
    lemma_top_covers(a, b, x, y);
    let h = spec_word_to_unsigned(a).hi | spec_word_to_unsigned(b).hi;
    lemma_bits_below_mask(h as nat, vx as u128, vy as u128);
}

/// The logical right shift of a member of a word by a member of another,
/// below 32, lies in their abstract shift.
pub proof fn law_word_srl_sound(a: Word, b: Word, x: (int, int, int, int), y: (int, int, int, int))
    requires
        word_srl_ok(a, b),
        bytes_in_word(a, x),
        bytes_in_word(b, y),
        bytes_value(y) < 32,
    ensures
        member(spec_word_srl(a, b), ((bytes_value(x) as i128) >> (bytes_value(y) as u32)) as int),
{
    lemma_value_in_unsigned(a, x);
    lemma_value_in_unsigned(b, y);
    let ua = spec_word_to_unsigned(a);
    let ub = spec_word_to_unsigned(b);
    let vx = bytes_value(x) as i128;
    let s = bytes_value(y) as u32;
    let lo_a = ua.lo;
    let hi_a = ua.hi;
    let lo_s = ub.lo as u32;
    assert(vx >> s <= hi_a >> lo_s) by (bit_vector)
        requires
            0 <= vx <= hi_a,
            lo_s <= s < 32,
    ;
    if ub.hi < 32 {
        let hi_s = ub.hi as u32;
        assert(lo_a >> hi_s <= vx >> s) by (bit_vector)
            requires
                lo_a <= vx,
                0 <= vx,
                s <= hi_s < 32,
        ;
    } else {
        assert(0 <= vx >> s) by (bit_vector)
            requires
                0 <= vx,
        ;
    }
}

/// The high 32 bits of the product of members of two words of non-negative
/// lower ends lie in their abstract high product.
pub proof fn law_word_mulhu_sound(a: Word, b: Word, x: (int, int, int, int), y: (int, int, int, int))
    requires
        word_mul_ok(a, b),
        bytes_in_word(a, x),
        bytes_in_word(b, y),
        spec_word_to_unsigned(a).lo >= 0,
        spec_word_to_unsigned(b).lo >= 0,
    ensures
        member(spec_word_mulhu(a, b), (bytes_value(x) * bytes_value(y)) / (WORD_BOUND as int)),
{
    lemma_value_in_unsigned(a, x);
    lemma_value_in_unsigned(b, y);
    let ua = spec_word_to_unsigned(a);
    let ub = spec_word_to_unsigned(b);
    let vx = bytes_value(x);
    let vy = bytes_value(y);
    assert(ua.lo * ub.lo <= vx * vy <= ua.hi * ub.hi) by (nonlinear_arith)
        requires
            0 <= ua.lo <= vx <= ua.hi,
            0 <= ub.lo <= vy <= ub.hi,
    ;
    vstd::arithmetic::div_mod::lemma_div_is_ordered(0, ua.lo * ub.lo, WORD_BOUND as int);
    vstd::arithmetic::div_mod::lemma_div_is_ordered_by_denominator(ua.hi * ub.hi, 1, WORD_BOUND as int);
    vstd::arithmetic::div_mod::lemma_div_is_ordered(ua.lo * ub.lo, vx * vy, WORD_BOUND as int);
    vstd::arithmetic::div_mod::lemma_div_is_ordered(vx * vy, ua.hi * ub.hi, WORD_BOUND as int);
}

/// The unsigned quotient of a member of a word by a non-zero member of
/// another, both of non-negative lower ends, lies in their abstract quotient.
pub proof fn law_word_div_sound(a: Word, b: Word, x: (int, int, int, int), y: (int, int, int, int))
    requires
        word_ok(a),
        word_ok(b),
        bytes_in_word(a, x),
        bytes_in_word(b, y),
        spec_word_to_unsigned(a).lo >= 0,
        spec_word_to_unsigned(b).lo >= 0,
        bytes_value(y) != 0,
    ensures
        member(spec_word_div(a, b), bytes_value(x) / bytes_value(y)),
{
    lemma_value_in_unsigned(a, x);
    lemma_value_in_unsigned(b, y);
    let ua = spec_word_to_unsigned(a);
    let ub = spec_word_to_unsigned(b);
    let vx = bytes_value(x);
    let vy = bytes_value(y);
    vstd::arithmetic::div_mod::lemma_div_is_ordered_by_denominator(vx, 1, vy);
    vstd::arithmetic::div_mod::lemma_div_pos_is_pos(vx, vy);
    if ub.lo > 0 {
        vstd::arithmetic::div_mod::lemma_div_is_ordered(ua.lo as int, vx, ub.hi as int);
        vstd::arithmetic::div_mod::lemma_div_is_ordered_by_denominator(vx, vy, ub.hi as int);
        vstd::arithmetic::div_mod::lemma_div_is_ordered(vx, ua.hi as int, ub.lo as int);
        vstd::arithmetic::div_mod::lemma_div_is_ordered_by_denominator(ua.hi as int, ub.lo as int, vy);
        vstd::arithmetic::div_mod::lemma_div_is_ordered_by_denominator(vx, ub.lo as int, vy);
    }
}

/// The high 32 bits (rounded down) of the signed product of members of two
/// words lie in their abstract signed high product (`word_mulhs`, and the
/// high half of `word_mult`).
pub proof fn law_word_mulhs_sound(a: Word, b: Word, x: (int, int, int, int), y: (int, int, int, int))
    requires
        word_signed_mul_ok(a, b),
        bytes_in_word(a, x),
        bytes_in_word(b, y),
    ensures
        member(spec_word_mulhs(a, b), (signed_value(bytes_value(x)) * signed_value(bytes_value(y))) / (WORD_BOUND as int)),
        member(spec_word_mult(a, b).1, (signed_value(bytes_value(x)) * signed_value(bytes_value(y))) / (WORD_BOUND as int)),
{
    lemma_signed_in(a, x);
    lemma_signed_in(b, y);
    let sa = spec_word_to_unsigned(a).spec_to_signed(WORD_BITS);
    let sb = spec_word_to_unsigned(b).spec_to_signed(WORD_BITS);
    let sx = signed_value(bytes_value(x));
    let sy = signed_value(bytes_value(y));
    law_mul_sound(sa, sb, sx, sy);
    let lo = signed_corner_min(a, b);
    let hi = signed_corner_max(a, b);
    assert(in_i128(lo) && in_i128(hi));
    assert(lo <= sx * sy <= hi);
    lemma_div_in_range(lo, WORD_BOUND as int);
    lemma_div_in_range(hi, WORD_BOUND as int);
    vstd::arithmetic::div_mod::lemma_div_is_ordered(lo, sx * sy, WORD_BOUND as int);
    vstd::arithmetic::div_mod::lemma_div_is_ordered(sx * sy, hi, WORD_BOUND as int);
}

/// Rust's quotient by a positive divisor is monotone in the dividend.
proof fn lemma_trunc_mono_x(x1: int, x2: int, k: int)
    requires
        x1 <= x2,
        k > 0,
    ensures
        trunc_div(x1, k) <= trunc_div(x2, k),
{
    if x1 >= 0 {
        vstd::arithmetic::div_mod::lemma_div_is_ordered(x1, x2, k);
    } else if x2 < 0 {
        vstd::arithmetic::div_mod::lemma_div_is_ordered(-x2, -x1, k);
    } else {
        vstd::arithmetic::div_mod::lemma_div_pos_is_pos(-x1, k);
        vstd::arithmetic::div_mod::lemma_div_pos_is_pos(x2, k);
    }
}

/// Rust's quotient moves toward zero as a positive divisor grows, and stays
/// between zero and the dividend.
proof fn lemma_trunc_mono_k(x: int, k1: int, k2: int)
    requires
        0 < k1 <= k2,
    ensures
        x >= 0 ==> trunc_div(x, k2) <= trunc_div(x, k1),
        x < 0 ==> trunc_div(x, k1) <= trunc_div(x, k2),
        x >= 0 ==> 0 <= trunc_div(x, k1) <= x,
        x < 0 ==> x <= trunc_div(x, k1) <= 0,
{
    if x >= 0 {
        vstd::arithmetic::div_mod::lemma_div_is_ordered_by_denominator(x, k1, k2);
        vstd::arithmetic::div_mod::lemma_div_is_ordered_by_denominator(x, 1, k1);
        vstd::arithmetic::div_mod::lemma_div_pos_is_pos(x, k1);
    } else {
        vstd::arithmetic::div_mod::lemma_div_is_ordered_by_denominator(-x, k1, k2);
        vstd::arithmetic::div_mod::lemma_div_is_ordered_by_denominator(-x, 1, k1);
        vstd::arithmetic::div_mod::lemma_div_pos_is_pos(-x, k1);
    }
}

/// Rust's quotient of a dividend in `[a1, a2]` by a divisor in `[k1, k2]`,
/// `k1 > 0`, lies between the least and the greatest corner quotient.
proof fn lemma_trunc_corners(x: int, k: int, a1: int, a2: int, k1: int, k2: int)
    requires
        a1 <= x <= a2,
        0 < k1 <= k <= k2,
    ensures
        min4(trunc_div(a1, k1), trunc_div(a1, k2), trunc_div(a2, k1), trunc_div(a2, k2)) <= trunc_div(x, k),
        trunc_div(x, k) <= max4(trunc_div(a1, k1), trunc_div(a1, k2), trunc_div(a2, k1), trunc_div(a2, k2)),
{
    lemma_trunc_mono_x(a1, x, k);
    lemma_trunc_mono_x(x, a2, k);
    lemma_trunc_mono_k(a1, k1, k);
    lemma_trunc_mono_k(a1, k, k2);
    lemma_trunc_mono_k(a2, k1, k);
    lemma_trunc_mono_k(a2, k, k2);
}

/// The signed quotient (rounded toward zero) of members of two words lies in
/// their abstract signed quotient, unless that is every word (a divisor that
/// may be zero, or `INT_MIN / -1`).
pub proof fn law_word_sdiv_sound(a: Word, b: Word, x: (int, int, int, int), y: (int, int, int, int))
    requires
        word_sdiv_ok(a, b),
        bytes_in_word(a, x),
        bytes_in_word(b, y),
    ensures
        spec_word_sdiv(a, b) == spec_full_word() || member(
            spec_word_sdiv(a, b),
            trunc_div_any(signed_value(bytes_value(x)), signed_value(bytes_value(y))),
        ),
{
    lemma_signed_in(a, x);
    lemma_signed_in(b, y);
    let ua = spec_word_to_unsigned(a);
    let ub = spec_word_to_unsigned(b);
    let sa = ua.spec_to_signed(WORD_BITS);
    let sb = ub.spec_to_signed(WORD_BITS);
    let sx = signed_value(bytes_value(x));
    let sy = signed_value(bytes_value(y));
    if sb.lo <= 0 && sb.hi >= 0 {
    } else if sa.lo == -0x8000_0000 && sb.lo == -1 && sb.hi == -1 {
    } else {
        assert(-WORD_VALUE_BOUND <= ua.lo <= WORD_VALUE_BOUND && -WORD_VALUE_BOUND <= ua.hi <= WORD_VALUE_BOUND);
        assert(-WORD_VALUE_BOUND <= ub.lo <= WORD_VALUE_BOUND && -WORD_VALUE_BOUND <= ub.hi <= WORD_VALUE_BOUND);
        lemma_signed_range(ua);
        lemma_signed_range(ub);
        let (a1, a2) = (sa.lo as int, sa.hi as int);
        if sb.lo > 0 {
            let (k1, k2) = (sb.lo as int, sb.hi as int);
            lemma_trunc_corners(sx, sy, a1, a2, k1, k2);
            lemma_trunc_mono_k(a1, k1, k2);
            lemma_trunc_mono_k(a1, k2, k2);
            lemma_trunc_mono_k(a2, k1, k2);
            lemma_trunc_mono_k(a2, k2, k2);
        } else {
            let (k1, k2) = (-(sb.hi as int), -(sb.lo as int));
            lemma_trunc_corners(sx, -sy, a1, a2, k1, k2);
            lemma_trunc_mono_k(a1, k1, k2);
            lemma_trunc_mono_k(a1, k2, k2);
            lemma_trunc_mono_k(a2, k1, k2);
            lemma_trunc_mono_k(a2, k2, k2);
        }
    }
}

/// A value between two others that share their quotient by `2^32` has that
/// quotient too, and its remainder lies between theirs.
proof fn lemma_same_word_block(lo: int, v: int, hi: int)
    requires
        lo <= v <= hi,
        lo / (WORD_BOUND as int) == hi / (WORD_BOUND as int),
    ensures
        lo % (WORD_BOUND as int) <= v % (WORD_BOUND as int) <= hi % (WORD_BOUND as int),
{
    let m = WORD_BOUND as int;
    vstd::arithmetic::div_mod::lemma_div_is_ordered(lo, v, m);
    vstd::arithmetic::div_mod::lemma_div_is_ordered(v, hi, m);
    vstd::arithmetic::div_mod::lemma_fundamental_div_mod(lo, m);
    vstd::arithmetic::div_mod::lemma_fundamental_div_mod(v, m);
    vstd::arithmetic::div_mod::lemma_fundamental_div_mod(hi, m);
}

/// The unsigned 64-bit product of members of two words of non-negative lower
/// ends, split in words (`word_multu`): its high word lies in the second
/// interval, and its low word (the product modulo `2^32`) in the first
/// whenever the end products lie in the same block of `2^32` values (as they
/// do for single values, where the first interval is that low word exactly).
pub proof fn law_word_multu_sound(a: Word, b: Word, x: (int, int, int, int), y: (int, int, int, int))
    requires
        word_mul_ok(a, b),
        bytes_in_word(a, x),
        bytes_in_word(b, y),
        spec_word_to_unsigned(a).lo >= 0,
        spec_word_to_unsigned(b).lo >= 0,
    ensures
        member(spec_word_multu(a, b).1, (bytes_value(x) * bytes_value(y)) / (WORD_BOUND as int)),
        (spec_word_to_unsigned(a).lo * spec_word_to_unsigned(b).lo) / (WORD_BOUND as int)
            == (spec_word_to_unsigned(a).hi * spec_word_to_unsigned(b).hi) / (WORD_BOUND as int) ==> member(
            spec_word_multu(a, b).0,
            (bytes_value(x) * bytes_value(y)) % (WORD_BOUND as int),
        ),
        spec_word_to_unsigned(a).lo == spec_word_to_unsigned(a).hi && spec_word_to_unsigned(b).lo
            == spec_word_to_unsigned(b).hi ==> spec_word_multu(a, b).0 == (AbstractInterval {
            lo: ((bytes_value(x) * bytes_value(y)) % (WORD_BOUND as int)) as i128,
            hi: ((bytes_value(x) * bytes_value(y)) % (WORD_BOUND as int)) as i128,
        }),
{
    law_word_mulhu_sound(a, b, x, y);
    lemma_value_in_unsigned(a, x);
    lemma_value_in_unsigned(b, y);
    let ua = spec_word_to_unsigned(a);
    let ub = spec_word_to_unsigned(b);
    let vx = bytes_value(x);
    let vy = bytes_value(y);
    assert(ua.lo * ub.lo <= vx * vy <= ua.hi * ub.hi) by (nonlinear_arith)
        requires
            0 <= ua.lo <= vx <= ua.hi,
            0 <= ub.lo <= vy <= ub.hi,
    ;
    vstd::arithmetic::div_mod::lemma_mod_bound(ua.lo * ub.lo, WORD_BOUND as int);
    vstd::arithmetic::div_mod::lemma_mod_bound(ua.hi * ub.hi, WORD_BOUND as int);
    vstd::arithmetic::div_mod::lemma_mod_bound(vx * vy, WORD_BOUND as int);
    if (ua.lo * ub.lo) / (WORD_BOUND as int) == (ua.hi * ub.hi) / (WORD_BOUND as int) {
        lemma_same_word_block(ua.lo * ub.lo, vx * vy, ua.hi * ub.hi);
    }
}

/// The signed 64-bit product of members of two words, split in words
/// (`word_mult`): its low word (modulo `2^32`) lies in the first interval
/// whenever the least and greatest corner products lie in the same block of
/// `2^32` values.
pub proof fn law_word_mult_low_sound(a: Word, b: Word, x: (int, int, int, int), y: (int, int, int, int))
    requires
        word_signed_mul_ok(a, b),
        bytes_in_word(a, x),
        bytes_in_word(b, y),
        signed_corner_min(a, b) / (WORD_BOUND as int) == signed_corner_max(a, b) / (WORD_BOUND as int),
    ensures
        member(spec_word_mult(a, b).0, (signed_value(bytes_value(x)) * signed_value(bytes_value(y))) % (WORD_BOUND as int)),
{
    lemma_signed_in(a, x);
    lemma_signed_in(b, y);
    let sa = spec_word_to_unsigned(a).spec_to_signed(WORD_BITS);
    let sb = spec_word_to_unsigned(b).spec_to_signed(WORD_BITS);
    let sx = signed_value(bytes_value(x));
    let sy = signed_value(bytes_value(y));
    law_mul_sound(sa, sb, sx, sy);
    let lo = signed_corner_min(a, b);
    let hi = signed_corner_max(a, b);
    assert(lo <= sx * sy <= hi);
    vstd::arithmetic::div_mod::lemma_mod_bound(lo, WORD_BOUND as int);
    vstd::arithmetic::div_mod::lemma_mod_bound(hi, WORD_BOUND as int);
    lemma_same_word_block(lo, sx * sy, hi);
}

} // verus!
