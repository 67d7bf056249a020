use vstd::arithmetic::power2::{lemma_pow2_unfold, pow2};
use vstd::prelude::*;

use crate::interval::{
    lemma_div_in_range, lemma_pow2_127_128, mask_cover, min_u128, spec_varying_bits, max2, min2, min4, max4, AbstractInterval, MayBeFlag,
};

verus! {

// ----------------------------------------------------------------------
// Soundness of the interval operators: every concrete result of the
// operation on members of the operands is a member of the abstract result.
// ----------------------------------------------------------------------
/// The sum of members of two intervals lies in their interval sum.
pub proof fn law_add_sound(a: AbstractInterval, b: AbstractInterval, x: int, y: int)
    requires
        a.add_ok(b),
        a.contains(x),
        b.contains(y),
    ensures
        a.spec_add(b).contains(x + y),
{
}

/// The difference of members of two intervals lies in their interval difference.
pub proof fn law_sub_sound(a: AbstractInterval, b: AbstractInterval, x: int, y: int)
    requires
        a.sub_ok(b),
        a.contains(x),
        b.contains(y),
    ensures
        a.spec_sub(b).contains(x - y),
{
}

/// The negation of a member lies in the negated interval.
pub proof fn law_neg_sound(a: AbstractInterval, x: int)
    requires
        a.neg_ok(),
        a.contains(x),
    ensures
        a.spec_neg().contains(-x),
{
}

/// The product of members of two intervals lies between the least and the
/// greatest corner product.
pub proof fn law_mul_sound(a: AbstractInterval, b: AbstractInterval, x: int, y: int)
    requires
        a.mul_ok(b),
        a.contains(x),
        b.contains(y),
    ensures
        a.spec_mul(b).contains(x * y),
{
    let (al, ah, bl, bh) = (a.lo as int, a.hi as int, b.lo as int, b.hi as int);
    let lo4 = min4(al * bl, al * bh, ah * bl, ah * bh);
    let hi4 = max4(al * bl, al * bh, ah * bl, ah * bh);
    // x * y lies between al * y and ah * y
    assert(min2(al * y, ah * y) <= x * y <= max2(al * y, ah * y)) by (nonlinear_arith)
        requires
            al <= x <= ah,
    ;
    assert(min2(al * bl, al * bh) <= al * y <= max2(al * bl, al * bh)) by (nonlinear_arith)
        requires
            bl <= y <= bh,
    ;
    assert(min2(ah * bl, ah * bh) <= ah * y <= max2(ah * bl, ah * bh)) by (nonlinear_arith)
        requires
            bl <= y <= bh,
    ;
    assert(lo4 <= x * y <= hi4);
}

/// A value lies in both intervals exactly when it lies in their intersection.
pub proof fn law_intersect_exact(a: AbstractInterval, b: AbstractInterval, x: int)
    ensures
        (a.contains(x) && b.contains(x)) <==> match a.spec_intersect(b) {
            Some(c) => c.contains(x),
            None => false,
        },
{
}

/// Rounded-down quotients of members lie in the rounded-down interval.
pub proof fn law_div_floor_sound(a: AbstractInterval, k: int, x: int)
    requires
        a.div_floor_ok(k),
        a.contains(x),
    ensures
        a.spec_div_floor(k).contains(x / k),
{
    vstd::arithmetic::div_mod::lemma_div_is_ordered(a.lo as int, x, k);
    vstd::arithmetic::div_mod::lemma_div_is_ordered(x, a.hi as int, k);
    lemma_div_in_range(a.lo as int, k);
    lemma_div_in_range(a.hi as int, k);
}

/// The two halves of a split lie in the interval and together cover it.
pub proof fn law_split_partitions(a: AbstractInterval, x: int)
    requires
        a.valid(),
        a.split_ok(),
    ensures
        a.spec_split().len() == 2,
        a.spec_split()[0].valid() && a.spec_split()[1].valid(),
        a.spec_split()[0].contains(x) || a.spec_split()[1].contains(x) <==> a.contains(x),
        a.spec_split()[0].hi < a.spec_split()[1].lo || a.hi == a.lo,
        a.lo == a.hi ==> a.spec_split() == seq![a, a],
        a.lo != a.hi ==> {
            &&& a.spec_split()[0].lo == a.lo
            &&& a.spec_split()[1].hi == a.hi
            &&& a.spec_split()[0].hi + 1 == a.spec_split()[1].lo
        },
{
    if a.lo == a.hi {
        assert(a.spec_split() =~= seq![a, a]);
    }
}

/// Unsigned comparison: for members `x`, `y` of non-negative regions the flag
/// `x >= y` (as 0 or 1) lies in the result.
pub proof fn law_ltu_sound(a: AbstractInterval, b: AbstractInterval, x: int, y: int)
    requires
        a.lo >= 0,
        a.contains(x),
        b.contains(y),
    ensures
        a.spec_ltu(b).contains(if x < y { 0 } else { 1 }),
{
}

/// The zero test in a prime field is sound: `True` means every member is a
/// multiple of `p`, and `False` means none is.
pub proof fn law_is_zero_sound(a: AbstractInterval, p: int, x: int)
    requires
        p > 0,
        a.contains(x),
    ensures
        a.spec_is_zero(p) == MayBeFlag::True ==> x % p == 0,
        a.spec_is_zero(p) == MayBeFlag::False ==> x % p != 0,
        a.spec_is_non_zero(p) == MayBeFlag::True ==> x % p != 0,
        a.spec_is_non_zero(p) == MayBeFlag::False ==> x % p == 0,
{
    if a.lo != a.hi && !a.spec_has_multiple_in_range(p) && x % p == 0 {
        let lo = a.lo as int;
        let hi = a.hi as int;
        vstd::arithmetic::div_mod::lemma_fundamental_div_mod(x, p);
        let j = x / p;
        vstd::arithmetic::div_mod::lemma_div_is_ordered(x, hi, p);
        vstd::arithmetic::div_mod::lemma_div_is_ordered(lo - 1, x - 1, p);
        assert(x == p * j);
        assert(x - 1 == p * (j - 1) + (p - 1)) by (nonlinear_arith)
            requires
                x == p * j,
        ;
        vstd::arithmetic::div_mod::lemma_fundamental_div_mod_converse(x - 1, p, j - 1, p - 1);
        assert(false);
    }
}

/// The field-strict zero test is exact about the integer zero.
pub proof fn law_is_strict_zero_sound(a: AbstractInterval, x: int)
    requires
        a.contains(x),
    ensures
        a.spec_is_strict_zero() == MayBeFlag::True ==> x == 0,
        a.spec_is_strict_zero() == MayBeFlag::False ==> x != 0,
{
}

/// Reduction modulo `m` of a member lies in the reduced interval.
pub proof fn law_modulo_sound(a: AbstractInterval, m: int, x: int)
    requires
        a.modulo_ok(m),
        a.contains(x),
    ensures
        a.spec_modulo(m).contains(x % m),
{
    let lo = a.lo as int;
    let hi = a.hi as int;
    vstd::arithmetic::div_mod::lemma_fundamental_div_mod(x, m);
    vstd::arithmetic::div_mod::lemma_fundamental_div_mod(lo, m);
    vstd::arithmetic::div_mod::lemma_fundamental_div_mod(hi, m);
    vstd::arithmetic::div_mod::lemma_div_is_ordered(lo, x, m);
    vstd::arithmetic::div_mod::lemma_div_is_ordered(x, hi, m);
    if lo / m == hi / m {
        assert(x / m == lo / m);
        assert(lo % m <= x % m <= hi % m);
    }
}

/// Bitwise complement of a member lies in the complemented interval.
pub proof fn law_bitnot_sound(a: AbstractInterval, x: i128)
    requires
        a.lo >= 0,
        a.contains(x as int),
    ensures
        a.spec_bitnot().contains((!x) as int),
{
    let lo = a.lo;
    let hi = a.hi;
    assert(!x == -x - 1) by (bit_vector);
    assert(!lo == -lo - 1) by (bit_vector);
    assert(!hi == -hi - 1) by (bit_vector);
}

// ----------------------------------------------------------------------
// Bit-level facts behind the bitwise operators
// ----------------------------------------------------------------------
proof fn lemma_mask_cover_bound(d: nat, b: nat)
    requires
        d < pow2(b),
    ensures
        mask_cover(d) < pow2(b),
    decreases d,
{
    vstd::arithmetic::power2::lemma_pow2_pos(b);
    if d > 0 {
        if b == 0 {
            vstd::arithmetic::power2::lemma2_to64();
        } else {
            lemma_pow2_unfold(b);
            lemma_mask_cover_bound(d / 2, (b - 1) as nat);
        }
    }
}

/// Numbers between `lo` and `hi` agree with `lo` on every bit above the
/// mask that covers `lo ^ hi`.
proof fn lemma_prefix_shared(lo: u128, hi: u128, x: u128)
    requires
        lo <= x <= hi,
    ensures
        x & !(mask_cover((lo ^ hi) as nat) as u128) == lo & !(mask_cover((lo ^ hi) as nat) as u128),
    decreases lo ^ hi,
{
    let d = lo ^ hi;
    if d == 0 {
        assert(lo == hi) by (bit_vector)
            requires
                d == lo ^ hi,
                d == 0,
        ;
    } else {
        let lo1 = lo >> 1;
        let hi1 = hi >> 1;
        let x1 = x >> 1;
        assert(lo1 <= x1 <= hi1) by (bit_vector)
            requires
                lo <= x <= hi,
                lo1 == lo >> 1,
                hi1 == hi >> 1,
                x1 == x >> 1,
        ;
        assert((lo1 ^ hi1) == d >> 1 && (d >> 1) < d) by (bit_vector)
            requires
                d == lo ^ hi,
                d != 0,
                lo1 == lo >> 1,
                hi1 == hi >> 1,
        ;
        assert((d >> 1) as nat == (d as nat) / 2) by (bit_vector);
        lemma_prefix_shared(lo1, hi1, x1);
        let m1 = mask_cover((lo1 ^ hi1) as nat);
        lemma_pow2_127_128();
        assert((d >> 1) < 0x8000_0000_0000_0000_0000_0000_0000_0000) by (bit_vector);
        lemma_mask_cover_bound(((lo1 ^ hi1) as nat), 127);
        let mm1 = m1 as u128;
        let mm = (2 * m1 + 1) as u128;
        assert(mask_cover(d as nat) == 2 * m1 + 1);
        assert(x & !mm == lo & !mm) by (bit_vector)
            requires
                x1 & !mm1 == lo1 & !mm1,
                lo1 == lo >> 1,
                x1 == x >> 1,
                mm1 < 0x8000_0000_0000_0000_0000_0000_0000_0000,
                mm == mm1 * 2 + 1,
        ;
    }
}

/// On a non-negative interval, every member agrees with both ends on the bits
/// outside the varying-bit mask (`varying_bits`), and that mask stays below
/// `2^127`.
pub proof fn law_varying_bits_agree(lo: i128, hi: i128, x: i128)
    requires
        0 <= lo <= x <= hi,
    ensures
        (x as u128) & !spec_varying_bits(lo, hi) == (lo as u128) & !spec_varying_bits(lo, hi),
        (hi as u128) & !spec_varying_bits(lo, hi) == (lo as u128) & !spec_varying_bits(lo, hi),
        spec_varying_bits(lo, hi) < 0x8000_0000_0000_0000_0000_0000_0000_0000,
{
    if lo != hi {
        let l = lo as u128;
        let h = hi as u128;
        let xx = x as u128;
        assert(l <= xx <= h && l < 0x8000_0000_0000_0000_0000_0000_0000_0000 && h
            < 0x8000_0000_0000_0000_0000_0000_0000_0000) by (bit_vector)
            requires
                0 <= lo <= x <= hi,
                l == lo as u128,
                h == hi as u128,
                xx == x as u128,
        ;
        lemma_prefix_shared(l, h, xx);
        lemma_prefix_shared(l, h, h);
        lemma_pow2_127_128();
        assert((l ^ h) < 0x8000_0000_0000_0000_0000_0000_0000_0000) by (bit_vector)
            requires
                l < 0x8000_0000_0000_0000_0000_0000_0000_0000,
                h < 0x8000_0000_0000_0000_0000_0000_0000_0000,
        ;
        lemma_mask_cover_bound((l ^ h) as nat, 127);
    }
}

/// Bitwise AND of members of non-negative intervals lies in the abstract AND.
pub proof fn law_bitand_sound(a: AbstractInterval, b: AbstractInterval, x: i128, y: i128)
    requires
        a.lo >= 0,
        b.lo >= 0,
        a.contains(x as int),
        b.contains(y as int),
    ensures
        a.spec_bitand(b).contains((x & y) as int),
{
    let (alo, ahi, blo, bhi) = (a.lo, a.hi, b.lo, b.hi);
    law_varying_bits_agree(alo, ahi, x);
    law_varying_bits_agree(blo, bhi, y);
    let v1 = spec_varying_bits(alo, ahi);
    let v2 = spec_varying_bits(blo, bhi);
    let vv = v1 | v2;
    let xx = x as u128;
    let yy = y as u128;
    let l1 = alo as u128;
    let l2 = blo as u128;
    let h1 = ahi as u128;
    let h2 = bhi as u128;
    let z = xx & yy;
    let c = l1 & l2;
    assert(z & !vv == c & !vv) by (bit_vector)
        requires
            xx & !v1 == l1 & !v1,
            yy & !v2 == l2 & !v2,
            vv == v1 | v2,
            z == xx & yy,
            c == l1 & l2,
    ;
    assert((c & !vv) <= z && z <= (c | vv) && z <= xx && z <= yy) by (bit_vector)
        requires
            z & !vv == c & !vv,
            z == xx & yy,
    ;
    assert(xx <= h1 && yy <= h2 && h1 < 0x8000_0000_0000_0000_0000_0000_0000_0000 && h2
        < 0x8000_0000_0000_0000_0000_0000_0000_0000) by (bit_vector)
        requires
            0 <= x <= ahi,
            0 <= y <= bhi,
            xx == x as u128,
            yy == y as u128,
            h1 == ahi as u128,
            h2 == bhi as u128,
    ;
    assert((x & y) >= 0 && ((x & y) as u128) == z) by (bit_vector)
        requires
            x >= 0,
            y >= 0,
            z == (x as u128) & (y as u128),
    ;
    let res_lo = c & !vv;
    let tight_hi = min_u128(c | vv, min_u128(h1, h2));
    assert(res_lo <= z <= tight_hi);
    assert(res_lo < 0x8000_0000_0000_0000_0000_0000_0000_0000);
    assert(tight_hi < 0x8000_0000_0000_0000_0000_0000_0000_0000);
}

/// Bitwise OR of members of non-negative intervals lies in the abstract OR.
pub proof fn law_bitor_sound(a: AbstractInterval, b: AbstractInterval, x: i128, y: i128)
    requires
        a.lo >= 0,
        b.lo >= 0,
        a.contains(x as int),
        b.contains(y as int),
    ensures
        a.spec_bitor(b).contains((x | y) as int),
{
    let (alo, ahi, blo, bhi) = (a.lo, a.hi, b.lo, b.hi);
    law_varying_bits_agree(alo, ahi, x);
    law_varying_bits_agree(blo, bhi, y);
    let v1 = spec_varying_bits(alo, ahi);
    let v2 = spec_varying_bits(blo, bhi);
    let vv = v1 | v2;
    let xx = x as u128;
    let yy = y as u128;
    let l1 = alo as u128;
    let l2 = blo as u128;
    let h1 = ahi as u128;
    let h2 = bhi as u128;
    let z = xx | yy;
    let c = h1 | h2;
    assert(z & !vv == c & !vv) by (bit_vector)
        requires
            xx & !v1 == l1 & !v1,
            yy & !v2 == l2 & !v2,
            h1 & !v1 == l1 & !v1,
            h2 & !v2 == l2 & !v2,
            vv == v1 | v2,
            z == xx | yy,
            c == h1 | h2,
    ;
    assert((c & !vv) <= z && z <= (c | vv)) by (bit_vector)
        requires
            z & !vv == c & !vv,
    ;
    assert(h1 < 0x8000_0000_0000_0000_0000_0000_0000_0000 && h2
        < 0x8000_0000_0000_0000_0000_0000_0000_0000) by (bit_vector)
        requires
            0 <= ahi,
            0 <= bhi,
            h1 == ahi as u128,
            h2 == bhi as u128,
    ;
    assert((c | vv) < 0x8000_0000_0000_0000_0000_0000_0000_0000) by (bit_vector)
        requires
            c == h1 | h2,
            h1 < 0x8000_0000_0000_0000_0000_0000_0000_0000,
            h2 < 0x8000_0000_0000_0000_0000_0000_0000_0000,
            v1 < 0x8000_0000_0000_0000_0000_0000_0000_0000,
            v2 < 0x8000_0000_0000_0000_0000_0000_0000_0000,
            vv == v1 | v2,
    ;
    assert((x | y) >= 0 && ((x | y) as u128) == z) by (bit_vector)
        requires
            x >= 0,
            y >= 0,
            z == (x as u128) | (y as u128),
    ;
}

/// Bitwise XOR of members of non-negative intervals lies in the abstract XOR.
pub proof fn law_bitxor_sound(a: AbstractInterval, b: AbstractInterval, x: i128, y: i128)
    requires
        a.lo >= 0,
        b.lo >= 0,
        a.contains(x as int),
        b.contains(y as int),
    ensures
        a.spec_bitxor(b).contains((x ^ y) as int),
{
    let (alo, ahi, blo, bhi) = (a.lo, a.hi, b.lo, b.hi);
    law_varying_bits_agree(alo, ahi, x);
    law_varying_bits_agree(blo, bhi, y);
    let v1 = spec_varying_bits(alo, ahi);
    let v2 = spec_varying_bits(blo, bhi);
    let vv = v1 | v2;
    let xx = x as u128;
    let yy = y as u128;
    let l1 = alo as u128;
    let l2 = blo as u128;
    let z = xx ^ yy;
    let c = l1 ^ l2;
    assert(z & !vv == c & !vv) by (bit_vector)
        requires
            xx & !v1 == l1 & !v1,
            yy & !v2 == l2 & !v2,
            vv == v1 | v2,
            z == xx ^ yy,
            c == l1 ^ l2,
    ;
    assert((c & !vv) <= z && z <= (c | vv)) by (bit_vector)
        requires
            z & !vv == c & !vv,
    ;
    assert(l1 < 0x8000_0000_0000_0000_0000_0000_0000_0000 && l2
        < 0x8000_0000_0000_0000_0000_0000_0000_0000) by (bit_vector)
        requires
            0 <= alo,
            0 <= blo,
            l1 == alo as u128,
            l2 == blo as u128,
    ;
    assert((c | vv) < 0x8000_0000_0000_0000_0000_0000_0000_0000) by (bit_vector)
        requires
            c == l1 ^ l2,
            l1 < 0x8000_0000_0000_0000_0000_0000_0000_0000,
            l2 < 0x8000_0000_0000_0000_0000_0000_0000_0000,
            v1 < 0x8000_0000_0000_0000_0000_0000_0000_0000,
            v2 < 0x8000_0000_0000_0000_0000_0000_0000_0000,
            vv == v1 | v2,
    ;
    assert((x ^ y) >= 0 && ((x ^ y) as u128) == z) by (bit_vector)
        requires
            x >= 0,
            y >= 0,
            z == (x as u128) ^ (y as u128),
    ;
}

} // verus!
