use vstd::arithmetic::power2::{lemma_pow2_unfold, pow2};
use vstd::prelude::*;

verus! {

/// Three-valued answer of an abstract query: definitely, definitely not, or unknown.
#[derive(Clone, Copy, Debug, PartialEq, Eq, Structural)]
pub enum MayBeFlag {
    True,
    False,
    MayBe,
}

/// A closed integer interval `[lo, hi]`, the abstract value of one trace cell.
#[derive(Clone, Copy, Debug, PartialEq, Eq, Structural, Hash)]
pub struct AbstractInterval {
    pub lo: i128,
    pub hi: i128,
}

/// Whether a mathematical integer fits in an `i128`.
pub open spec fn in_i128(x: int) -> bool {
    i128::MIN <= x <= i128::MAX
}

/// Rust's `/` on integers: the quotient rounded toward zero (for a positive divisor).
pub open spec fn trunc_div(a: int, b: int) -> int {
    if a >= 0 {
        a / b
    } else {
        -((-a) / b)
    }
}

/// Rust's `%` on integers: the remainder whose sign follows the dividend.
pub open spec fn trunc_rem(a: int, b: int) -> int {
    if a >= 0 {
        a % b
    } else {
        -((-a) % b)
    }
}

/// Rust's `/` for any non-zero divisor (rounded toward zero).
pub open spec fn trunc_div_any(a: int, b: int) -> int {
    if b > 0 {
        trunc_div(a, b)
    } else {
        -trunc_div(a, -b)
    }
}

pub open spec fn min2(x: int, y: int) -> int {
    if x <= y {
        x
    } else {
        y
    }
}

pub open spec fn max2(x: int, y: int) -> int {
    if x >= y {
        x
    } else {
        y
    }
}

pub open spec fn min4(a: int, b: int, c: int, d: int) -> int {
    min2(min2(min2(a, b), c), d)
}

pub open spec fn max4(a: int, b: int, c: int, d: int) -> int {
    max2(max2(max2(a, b), c), d)
}

/// `m` is a mask of low bits: `m == 2^k - 1` for some `k`.
pub open spec fn is_low_mask(m: u128) -> bool {
    exists|k: nat| k <= 128 && m as int == pow2(k) - 1
}

/// The smallest low-bit mask that covers `d`: every bit of `d` lies under it.
pub open spec fn is_covering_mask(m: u128, d: u128) -> bool {
    &&& is_low_mask(m)
    &&& d <= m
    &&& (m == 0 || m / 2 < d)
}

/// Exact quotient of `x` by a positive `k`, rounded toward negative infinity.
pub fn div_floor_i128(x: i128, k: i128) -> (r: i128)
    requires
        k > 0,
    ensures
        r == x / k,
{
    let q = x / k;
    let rem = x % k;
    proof {
        lemma_trunc_parts(x as int, k as int);
    }
    if rem < 0 {
        q - 1
    } else {
        q
    }
}

/// Rust's quotient and remainder by a positive `k` recompose `x`, and give
/// the rounded-down quotient after a correction for a negative remainder.
proof fn lemma_trunc_parts(x: int, k: int)
    requires
        k > 0,
    ensures
        x == k * trunc_div(x, k) + trunc_rem(x, k),
        -k < trunc_rem(x, k) < k,
        trunc_rem(x, k) < 0 ==> x / k == trunc_div(x, k) - 1,
        trunc_rem(x, k) >= 0 ==> x / k == trunc_div(x, k),
        trunc_rem(x, k) < 0 ==> x % k == trunc_rem(x, k) + k,
        trunc_rem(x, k) >= 0 ==> x % k == trunc_rem(x, k),
        in_i128(x) ==> in_i128(trunc_div(x, k)),
        in_i128(x) && trunc_rem(x, k) < 0 ==> in_i128(trunc_div(x, k) - 1),
{
    if x >= 0 {
        vstd::arithmetic::div_mod::lemma_fundamental_div_mod(x, k);
        vstd::arithmetic::div_mod::lemma_div_is_ordered_by_denominator(x, 1, k);
        vstd::arithmetic::div_mod::lemma_div_pos_is_pos(x, k);
    } else {
        let b = -x;
        vstd::arithmetic::div_mod::lemma_fundamental_div_mod(b, k);
        vstd::arithmetic::div_mod::lemma_div_is_ordered_by_denominator(b, 1, k);
        vstd::arithmetic::div_mod::lemma_div_pos_is_pos(b, k);
        let qb = b / k;
        let rb = b % k;
        assert(x == k * (-qb) + (-rb)) by (nonlinear_arith)
            requires
                b == k * qb + rb,
                b == -x,
        ;
        if rb != 0 {
            assert(x == (-qb - 1) * k + (k - rb)) by (nonlinear_arith)
                requires
                    b == k * qb + rb,
                    b == -x,
            ;
            vstd::arithmetic::div_mod::lemma_fundamental_div_mod_converse(x, k, -qb - 1, k - rb);
            vstd::arithmetic::div_mod::lemma_div_is_ordered_by_denominator(b, 2, k);
        } else {
            assert(x == (-qb) * k + 0) by (nonlinear_arith)
                requires
                    b == k * qb + rb,
                    b == -x,
                    rb == 0,
            ;
            vstd::arithmetic::div_mod::lemma_fundamental_div_mod_converse(x, k, -qb, 0);
        }
    }
}

/// Remainder of `x` modulo a positive `m`, in `[0, m)`.
pub fn rem_euclid_i128(x: i128, m: i128) -> (r: i128)
    requires
        m > 0,
    ensures
        r == (x as int) % (m as int),
        0 <= r < m,
{
    let t = x % m;
    proof {
        lemma_trunc_parts(x as int, m as int);
        vstd::arithmetic::div_mod::lemma_fundamental_div_mod(x as int, m as int);
    }
    if t < 0 {
        t + m
    } else {
        t
    }
}

/// Rust's `/` for a non-zero divisor of either sign, rounded toward zero.
pub fn div_trunc_i128(x: i128, y: i128) -> (r: i128)
    requires
        y != 0,
        y > i128::MIN,
        x > i128::MIN,
    ensures
        r == trunc_div_any(x as int, y as int),
{
    if y > 0 {
        x / y
    } else {
        proof {
            lemma_trunc_parts(x as int, -(y as int));
        }
        let q = x / (-y);
        -q
    }
}

/// Rounded-down quotients by a positive number stay within `i128`.
pub proof fn lemma_div_in_range(x: int, k: int)
    requires
        k > 0,
        in_i128(x),
    ensures
        in_i128(x / k),
        x >= 0 ==> 0 <= x / k <= x,
        x < 0 ==> x <= x / k < 0,
{
    vstd::arithmetic::div_mod::lemma_fundamental_div_mod(x, k);
    let q = x / k;
    let r = x % k;
    assert(in_i128(q) && (x >= 0 ==> 0 <= q <= x) && (x < 0 ==> x <= q < 0)) by (nonlinear_arith)
        requires
            x == k * q + r,
            0 <= r < k,
            k >= 1,
            in_i128(x),
    ;
}

pub proof fn lemma_pow2_127_128()
    ensures
        pow2(127) == 0x8000_0000_0000_0000_0000_0000_0000_0000,
        pow2(128) == 0x1_0000_0000_0000_0000_0000_0000_0000_0000,
{
    vstd::arithmetic::power2::lemma2_to64();
    vstd::arithmetic::power2::lemma_pow2_adds(31, 32);
    vstd::arithmetic::power2::lemma_pow2_adds(63, 64);
    vstd::arithmetic::power2::lemma_pow2_adds(64, 64);
}

/// The smallest mask of low bits (`2^k - 1`) that covers every bit of `d`.
pub open spec fn mask_cover(d: nat) -> nat
    decreases d,
{
    if d == 0 {
        0
    } else {
        2 * mask_cover(d / 2) + 1
    }
}

/// The mask of the bits that may differ among the numbers between `lo` and `hi`.
pub open spec fn spec_varying_bits(lo: i128, hi: i128) -> u128 {
    if lo == hi {
        0
    } else {
        mask_cover(((lo as u128) ^ (hi as u128)) as nat) as u128
    }
}

proof fn lemma_covering_mask_unique(k: nat, d: nat)
    requires
        pow2(k) - 1 >= d,
        pow2(k) - 1 == 0 || (pow2(k) - 1) / 2 < d,
    ensures
        pow2(k) - 1 == mask_cover(d),
    decreases d,
{
    vstd::arithmetic::power2::lemma_pow2_pos(k);
    if d == 0 {
        if k > 0 {
            lemma_pow2_unfold(k);
            vstd::arithmetic::power2::lemma_pow2_pos((k - 1) as nat);
        }
    } else {
        if k == 0 {
            vstd::arithmetic::power2::lemma2_to64();
        } else {
            lemma_pow2_unfold(k);
            vstd::arithmetic::power2::lemma_pow2_pos((k - 1) as nat);
            let j = (k - 1) as nat;
            if j > 0 {
                lemma_pow2_unfold(j);
            } else {
                vstd::arithmetic::power2::lemma2_to64();
            }
            lemma_covering_mask_unique(j, d / 2);
        }
    }
}

/// The smallest mask of low bits (`2^k - 1`) that covers every bit of `d`.
pub fn cover_mask(d: u128) -> (r: u128)
    ensures
        r as nat == mask_cover(d as nat),
        is_covering_mask(r, d),
{
    let mut m: u128 = 0;
    let ghost mut k: nat = 0;
    proof {
        vstd::arithmetic::power2::lemma2_to64();
    }
    while m < d
        invariant
            k <= 128,
            m as int == pow2(k) - 1,
            m == 0 || m / 2 < d,
        decreases u128::MAX - m,
    {
        proof {
            lemma_pow2_unfold(k + 1);
            lemma_pow2_127_128();
            if k == 128 {
                assert(false);
            } else if k < 127 {
                vstd::arithmetic::power2::lemma_pow2_strictly_increases(k, 127);
            }
            assert(m <= 0x7fff_ffff_ffff_ffff_ffff_ffff_ffff_ffff);
        }
        m = m * 2 + 1;
        proof {
            k = k + 1;
        }
    }
    proof {
        assert(is_low_mask(m));
        lemma_covering_mask_unique(k, d as nat);
    }
    m
}

/// Mask of the bits that may differ among the numbers between `lo` and `hi`:
/// `0` when they are equal, otherwise the smallest `2^k - 1` that covers `lo ^ hi`
/// (both taken as their two's complement bit patterns).
pub fn varying_bits(lo: i128, hi: i128) -> (r: u128)
    ensures
        r == spec_varying_bits(lo, hi),
        lo != hi ==> is_covering_mask(r, (lo as u128) ^ (hi as u128)),
{
    if lo == hi {
        return 0;
    }
    let diff: u128 = (#[verifier::truncate] (lo as u128)) ^ (#[verifier::truncate] (hi as u128));
    cover_mask(diff)
}

/// Whether the low byte of `b` has its top bit set.
pub fn msb_u8(b: u8) -> (r: bool)
    ensures
        r == (b >= 128),
{
    let r = (b & 0x80u8) != 0;
    assert(((b & 0x80u8) != 0) == (b >= 128)) by (bit_vector);
    r
}

/// Whether the low byte of the interval's values has its top bit set.
/// Gives `{0, 1}` for a region with negative values; otherwise compares the
/// top bit of the low bytes of both ends.
pub fn msb_maybe(interval: &AbstractInterval) -> (r: AbstractInterval)
    ensures
        r == spec_msb_maybe(*interval),
{
    if interval.lo < 0 {
        return AbstractInterval::bool();
    }
    let lo_msb = msb_u8(interval.lo as u8);
    let hi_msb = msb_u8(interval.hi as u8);
    if lo_msb == hi_msb {
        if lo_msb {
            AbstractInterval::one()
        } else {
            AbstractInterval::zero()
        }
    } else {
        AbstractInterval::bool()
    }
}

pub open spec fn spec_msb_maybe(iv: AbstractInterval) -> AbstractInterval {
    if iv.lo < 0 {
        AbstractInterval { lo: 0, hi: 1 }
    } else {
        let lo_msb = (iv.lo as u8) >= 128;
        let hi_msb = (iv.hi as u8) >= 128;
        if lo_msb == hi_msb {
            if lo_msb {
                AbstractInterval { lo: 1, hi: 1 }
            } else {
                AbstractInterval { lo: 0, hi: 0 }
            }
        } else {
            AbstractInterval { lo: 0, hi: 1 }
        }
    }
}

impl AbstractInterval {
    /// `x` lies in the interval.
    pub open spec fn contains(self, x: int) -> bool {
        self.lo <= x <= self.hi
    }

    /// The interval is non-empty.
    pub open spec fn valid(self) -> bool {
        self.lo <= self.hi
    }

    pub open spec fn spec_is_singleton(self) -> bool {
        self.lo == self.hi
    }

    // ------------------------------------------------------------------
    // constructors
    // ------------------------------------------------------------------
    /// The whole field `[0, prime - 1]`.
    pub fn top(prime: u32) -> (r: Self)
        ensures
            r.lo == 0,
            r.hi == prime as int - 1,
    {
        Self { lo: 0, hi: prime as i128 - 1 }
    }

    pub fn bool() -> (r: Self)
        ensures
            r.lo == 0 && r.hi == 1,
    {
        Self { lo: 0, hi: 1 }
    }

    pub fn u4() -> (r: Self)
        ensures
            r.lo == 0 && r.hi == 15,
    {
        Self { lo: 0, hi: 15 }
    }

    pub fn u8() -> (r: Self)
        ensures
            r.lo == 0 && r.hi == 255,
    {
        Self { lo: 0, hi: 255 }
    }

    pub fn u16() -> (r: Self)
        ensures
            r.lo == 0 && r.hi == 65535,
    {
        Self { lo: 0, hi: 65535 }
    }

    pub fn i4() -> (r: Self)
        ensures
            r.lo == -8 && r.hi == 8,
    {
        Self { lo: -8, hi: 8 }
    }

    pub fn i8() -> (r: Self)
        ensures
            r.lo == -255 && r.hi == 255,
    {
        Self { lo: -255, hi: 255 }
    }

    pub fn zero() -> (r: Self)
        ensures
            r.lo == 0 && r.hi == 0,
    {
        Self { lo: 0, hi: 0 }
    }

    pub fn one() -> (r: Self)
        ensures
            r.lo == 1 && r.hi == 1,
    {
        Self { lo: 1, hi: 1 }
    }

    pub fn from_i64(v: i64) -> (r: Self)
        ensures
            r.lo == v && r.hi == v,
    {
        Self { lo: v as i128, hi: v as i128 }
    }

    pub fn from_i128(v: i128) -> (r: Self)
        ensures
            r.lo == v && r.hi == v,
    {
        Self { lo: v, hi: v }
    }

    // ------------------------------------------------------------------
    // queries
    // ------------------------------------------------------------------
    pub fn is_singleton(&self) -> (r: bool)
        ensures
            r == (self.lo == self.hi),
    {
        self.lo == self.hi
    }

    /// The canonical field element `lo mod prime`, in `[0, prime)`.
    pub fn as_canonical_u32(&self, prime: u32) -> (r: u32)
        requires
            prime > 0,
        ensures
            r as int == (self.lo as int) % (prime as int),
    {
        let p = prime as i128;
        let t = self.lo % p;
        let s = (t + p) % p;
        proof {
            lemma_trunc_rem_shift(self.lo as int, p as int, t as int, s as int);
        }
        s as u32
    }

    /// Whether some multiple of `k` lies in `[lo, hi]`: the floor quotients
    /// of `hi` and of `lo - 1` by `k` differ.
    pub open spec fn spec_has_multiple_in_range(self, k: int) -> bool {
        if self.lo <= 0 && 0 <= self.hi {
            true
        } else {
            (self.lo as int - 1) / k < (self.hi as int) / k
        }
    }

    /// Whether the interval meets a multiple of `k`, by comparing the floor
    /// quotients `hi / k` and `(lo - 1) / k` when it does not contain 0.
    pub fn has_multiple_in_range(&self, k: i64) -> (r: bool)
        requires
            k > 0,
        ensures
            r == self.spec_has_multiple_in_range(k as int),
    {
        if self.lo <= 0 && 0 <= self.hi {
            true
        } else {
            let kk = k as i128;
            let a = div_floor_i128(self.hi, kk);
            let q = div_floor_i128(self.lo, kk);
            let t = self.lo % kk;
            proof {
                lemma_trunc_rem_zero(self.lo as int, kk as int, t as int);
                lemma_pred_floor_div(self.lo as int, kk as int);
            }
            if t == 0 {
                a >= q
            } else {
                proof {
                    lemma_floor_div_room(self.lo as int, kk as int);
                }
                a >= q + 1
            }
        }
    }

    pub open spec fn spec_is_zero(self, p: int) -> MayBeFlag {
        if self.lo == self.hi {
            if (self.lo as int) % p == 0 {
                MayBeFlag::True
            } else {
                MayBeFlag::False
            }
        } else if self.spec_has_multiple_in_range(p) {
            MayBeFlag::MayBe
        } else {
            MayBeFlag::False
        }
    }

    /// Whether the interval is zero in the field of size `p`.
    pub fn is_zero(&self, p: u32) -> (r: MayBeFlag)
        requires
            p > 0,
        ensures
            r == self.spec_is_zero(p as int),
    {
        if self.is_singleton() {
            let t = self.lo % (p as i128);
            proof {
                lemma_trunc_rem_zero(self.lo as int, p as int, t as int);
            }
            if t == 0 {
                return MayBeFlag::True;
            } else {
                return MayBeFlag::False;
            }
        }
        if self.has_multiple_in_range(p as i64) {
            MayBeFlag::MayBe
        } else {
            MayBeFlag::False
        }
    }

    pub open spec fn spec_is_non_zero(self, p: int) -> MayBeFlag {
        if self.lo == self.hi {
            if (self.lo as int) % p != 0 {
                MayBeFlag::True
            } else {
                MayBeFlag::False
            }
        } else if self.spec_has_multiple_in_range(p) {
            MayBeFlag::MayBe
        } else {
            MayBeFlag::True
        }
    }

    /// Whether the interval is non-zero in the field of size `p`.
    pub fn is_non_zero(&self, p: u32) -> (r: MayBeFlag)
        requires
            p > 0,
        ensures
            r == self.spec_is_non_zero(p as int),
    {
        if self.is_singleton() {
            let t = self.lo % (p as i128);
            proof {
                lemma_trunc_rem_zero(self.lo as int, p as int, t as int);
            }
            if t != 0 {
                return MayBeFlag::True;
            } else {
                return MayBeFlag::False;
            }
        }
        if self.has_multiple_in_range(p as i64) {
            MayBeFlag::MayBe
        } else {
            MayBeFlag::True
        }
    }

    pub open spec fn spec_is_strict_zero(self) -> MayBeFlag {
        if self.lo == 0 && self.hi == 0 {
            MayBeFlag::True
        } else if self.lo <= 0 && 0 <= self.hi {
            MayBeFlag::MayBe
        } else {
            MayBeFlag::False
        }
    }

    /// Whether the interval is the integer zero, with no reduction modulo a prime.
    pub fn is_strict_zero(&self) -> (r: MayBeFlag)
        ensures
            r == self.spec_is_strict_zero(),
    {
        if self.lo == 0 && self.hi == 0 {
            MayBeFlag::True
        } else if self.lo <= 0 && 0 <= self.hi {
            MayBeFlag::MayBe
        } else {
            MayBeFlag::False
        }
    }

    pub open spec fn spec_ltu(self, rhs: Self) -> Self {
        if self.lo < 0 {
            Self { lo: 123456, hi: 123456 }
        } else if self.hi < rhs.lo {
            Self { lo: 0, hi: 0 }
        } else if self.lo >= rhs.hi {
            Self { lo: 1, hi: 1 }
        } else {
            Self { lo: 0, hi: 1 }
        }
    }

    /// Abstract unsigned "not less than" flag: `0` when every value is below
    /// every value of `rhs`, `1` when none is, `{0, 1}` otherwise.
    /// A region with negative values gives the marker value `123456`.
    pub fn ltu(&self, rhs: Self) -> (r: Self)
        ensures
            r == self.spec_ltu(rhs),
    {
        if self.lo < 0 {
            return AbstractInterval::from_i64(123456);
        }
        if self.hi < rhs.lo {
            AbstractInterval::zero()
        } else if self.lo >= rhs.hi {
            AbstractInterval::one()
        } else {
            AbstractInterval::bool()
        }
    }

    pub open spec fn div_floor_ok(self, k: int) -> bool {
        0 < k <= i128::MAX
    }

    pub open spec fn spec_div_floor(self, k: int) -> Self {
        Self { lo: ((self.lo as int) / k) as i128, hi: ((self.hi as int) / k) as i128 }
    }

    /// Both ends divided by `k`, rounded toward negative infinity.
    pub fn div_floor(&self, k: i128) -> (r: Self)
        requires
            self.div_floor_ok(k as int),
        ensures
            r == self.spec_div_floor(k as int),
            r.lo == self.lo / k,
            r.hi == self.hi / k,
    {
        let lo = div_floor_i128(self.lo, k);
        let hi = div_floor_i128(self.hi, k);
        proof {
            lemma_div_in_range(self.lo as int, k as int);
            lemma_div_in_range(self.hi as int, k as int);
        }
        AbstractInterval { lo, hi }
    }

    pub open spec fn spec_intersect(self, other: Self) -> Option<Self> {
        let lo = max2(self.lo as int, other.lo as int);
        let hi = min2(self.hi as int, other.hi as int);
        if lo <= hi {
            Some(Self { lo: lo as i128, hi: hi as i128 })
        } else {
            None
        }
    }

    /// The common part of two intervals, or `None` when they do not meet.
    pub fn intersect(&self, other: &Self) -> (r: Option<Self>)
        ensures
            r == self.spec_intersect(*other),
    {
        let lo = if self.lo >= other.lo {
            self.lo
        } else {
            other.lo
        };
        let hi = if self.hi <= other.hi {
            self.hi
        } else {
            other.hi
        };
        if lo <= hi {
            Some(Self { lo, hi })
        } else {
            None
        }
    }

    pub open spec fn split_ok(self) -> bool {
        in_i128(self.lo + self.hi)
    }

    pub open spec fn spec_split(self) -> Seq<Self> {
        if self.hi == self.lo || self.hi == self.lo + 1 {
            seq![Self { lo: self.lo, hi: self.lo }, Self { lo: self.hi, hi: self.hi }]
        } else {
            let mid = trunc_div(self.lo + self.hi, 2);
            seq![Self { lo: self.lo, hi: mid as i128 }, Self { lo: (mid + 1) as i128, hi: self.hi }]
        }
    }

    /// Splits the interval into two halves at its midpoint (Rust division by 2);
    /// an interval of one or two values splits into its two end points.
    pub fn split(&self, _p: u32) -> (r: Vec<Self>)
        requires
            self.split_ok(),
        ensures
            r@ == self.spec_split(),
    {
        if self.hi == self.lo || (self.lo < i128::MAX && self.hi == self.lo + 1) {
            vec![Self { lo: self.lo, hi: self.lo }, Self { lo: self.hi, hi: self.hi }]
        } else {
            let sum = self.lo + self.hi;
            let mid = sum / 2;
            vec![Self { lo: self.lo, hi: mid }, Self { lo: mid + 1, hi: self.hi }]
        }
    }

    pub open spec fn is_disjoint_spec(self, other: Self) -> bool {
        self.hi < other.lo || other.hi < self.lo
    }

    /// The two intervals have no value in common (both taken as non-empty).
    pub fn is_disjoint(&self, other: &Self) -> (r: bool)
        ensures
            r == self.is_disjoint_spec(*other),
    {
        self.hi < other.lo || other.hi < self.lo
    }

    /// The two intervals overlap (both taken as non-empty).
    pub fn is_intersects(&self, other: &Self) -> (r: bool)
        ensures
            r == !self.is_disjoint_spec(*other),
    {
        !self.is_disjoint(other)
    }

    pub open spec fn contains_spec(self, other: Self) -> bool {
        self.lo <= other.lo && other.hi <= self.hi
    }

    /// Every value of `other` lies in `self`.
    pub fn is_contains(&self, other: &Self) -> (r: bool)
        ensures
            r == self.contains_spec(*other),
    {
        self.lo <= other.lo && other.hi <= self.hi
    }
}

/// The constant that the shift operators give when no bound can be computed.
pub const SHIFT_FALLBACK_PRIME: u32 = 2130706433;

pub open spec fn min_u128(a: u128, b: u128) -> u128 {
    if a <= b {
        a
    } else {
        b
    }
}

impl AbstractInterval {
    // ------------------------------------------------------------------
    // arithmetic
    // ------------------------------------------------------------------
    pub open spec fn add_ok(self, rhs: Self) -> bool {
        in_i128(self.lo + rhs.lo) && in_i128(self.hi + rhs.hi)
    }

    pub open spec fn spec_add(self, rhs: Self) -> Self {
        Self { lo: (self.lo + rhs.lo) as i128, hi: (self.hi + rhs.hi) as i128 }
    }

    /// Interval sum `[lo + lo', hi + hi']`.
    pub fn plus(self, rhs: Self) -> (r: Self)
        requires
            self.add_ok(rhs),
        ensures
            r == self.spec_add(rhs),
            r.lo == self.lo + rhs.lo,
            r.hi == self.hi + rhs.hi,
    {
        Self { lo: self.lo + rhs.lo, hi: self.hi + rhs.hi }
    }

    pub open spec fn sub_ok(self, rhs: Self) -> bool {
        in_i128(self.lo - rhs.hi) && in_i128(self.hi - rhs.lo)
    }

    pub open spec fn spec_sub(self, rhs: Self) -> Self {
        Self { lo: (self.lo - rhs.hi) as i128, hi: (self.hi - rhs.lo) as i128 }
    }

    /// Interval difference `[lo - hi', hi - lo']`.
    pub fn minus(self, rhs: Self) -> (r: Self)
        requires
            self.sub_ok(rhs),
        ensures
            r == self.spec_sub(rhs),
            r.lo == self.lo - rhs.hi,
            r.hi == self.hi - rhs.lo,
    {
        Self { lo: self.lo - rhs.hi, hi: self.hi - rhs.lo }
    }

    pub open spec fn mul_ok(self, rhs: Self) -> bool {
        &&& in_i128(self.lo * rhs.lo)
        &&& in_i128(self.lo * rhs.hi)
        &&& in_i128(self.hi * rhs.lo)
        &&& in_i128(self.hi * rhs.hi)
    }

    pub open spec fn spec_mul(self, rhs: Self) -> Self {
        Self {
            lo: min4(self.lo * rhs.lo, self.lo * rhs.hi, self.hi * rhs.lo, self.hi * rhs.hi) as i128,
            hi: max4(self.lo * rhs.lo, self.lo * rhs.hi, self.hi * rhs.lo, self.hi * rhs.hi) as i128,
        }
    }

    /// Interval product: the least and the greatest of the four corner products.
    pub fn times(self, rhs: Self) -> (r: Self)
        requires
            self.mul_ok(rhs),
        ensures
            r == self.spec_mul(rhs),
    {
        let a = self.lo * rhs.lo;
        let b = self.lo * rhs.hi;
        let c = self.hi * rhs.lo;
        let d = self.hi * rhs.hi;
        Self { lo: min_i128(min_i128(min_i128(a, b), c), d), hi: max_i128(max_i128(max_i128(a, b), c), d) }
    }

    pub open spec fn neg_ok(self) -> bool {
        self.lo > i128::MIN && self.hi > i128::MIN
    }

    pub open spec fn spec_neg(self) -> Self {
        Self { lo: (-self.hi) as i128, hi: (-self.lo) as i128 }
    }

    /// Interval negation `[-hi, -lo]`.
    pub fn negate(self) -> (r: Self)
        requires
            self.neg_ok(),
        ensures
            r == self.spec_neg(),
            r.lo == -self.hi,
            r.hi == -self.lo,
    {
        Self { lo: -self.hi, hi: -self.lo }
    }

    // ------------------------------------------------------------------
    // bitwise operators (defined on regions without negative values)
    // ------------------------------------------------------------------
    pub open spec fn spec_bitand(self, rhs: Self) -> Self {
        let v = spec_varying_bits(self.lo, self.hi) | spec_varying_bits(rhs.lo, rhs.hi);
        let min_val = (self.lo as u128) & (rhs.lo as u128);
        let res_lo = min_val & !v;
        let res_hi = min_val | v;
        let tight_hi = min_u128(res_hi, min_u128(self.hi as u128, rhs.hi as u128));
        Self { lo: res_lo as i128, hi: tight_hi as i128 }
    }

    /// Bitwise AND: bits that vary in either operand may take any value, the
    /// others follow the lower ends; the upper end is capped by both upper ends.
    pub fn bit_and(self, rhs: Self) -> (r: Self)
        requires
            self.lo >= 0,
            rhs.lo >= 0,
        ensures
            r == self.spec_bitand(rhs),
    {
        let var1 = varying_bits(self.lo, self.hi);
        let var2 = varying_bits(rhs.lo, rhs.hi);
        let min_val = (self.lo as u128) & (rhs.lo as u128);
        let var_result = var1 | var2;
        let res_lo = min_val & !var_result;
        let res_hi = min_val | var_result;
        let shi = #[verifier::truncate] (self.hi as u128);
        let rhi = #[verifier::truncate] (rhs.hi as u128);
        let cap = if shi <= rhi {
            shi
        } else {
            rhi
        };
        let tight_hi = if res_hi <= cap {
            res_hi
        } else {
            cap
        };
        Self { lo: #[verifier::truncate] (res_lo as i128), hi: #[verifier::truncate] (tight_hi as i128) }
    }

    pub open spec fn spec_bitor(self, rhs: Self) -> Self {
        let v = spec_varying_bits(self.lo, self.hi) | spec_varying_bits(rhs.lo, rhs.hi);
        let max_val = (self.hi as u128) | (rhs.hi as u128);
        Self { lo: (max_val & !v) as i128, hi: (max_val | v) as i128 }
    }

    /// Bitwise OR: bits that vary in either operand may take any value, the
    /// others follow the upper ends.
    pub fn bit_or(self, rhs: Self) -> (r: Self)
        requires
            self.lo >= 0,
            rhs.lo >= 0,
        ensures
            r == self.spec_bitor(rhs),
    {
        let var1 = varying_bits(self.lo, self.hi);
        let var2 = varying_bits(rhs.lo, rhs.hi);
        let max_val = (#[verifier::truncate] (self.hi as u128)) | (#[verifier::truncate] (rhs.hi as u128));
        let var_result = var1 | var2;
        let res_lo = max_val & !var_result;
        let res_hi = max_val | var_result;
        Self { lo: #[verifier::truncate] (res_lo as i128), hi: #[verifier::truncate] (res_hi as i128) }
    }

    pub open spec fn spec_bitxor(self, rhs: Self) -> Self {
        let v = spec_varying_bits(self.lo, self.hi) | spec_varying_bits(rhs.lo, rhs.hi);
        let base = (self.lo as u128) ^ (rhs.lo as u128);
        Self { lo: (base & !v) as i128, hi: (base | v) as i128 }
    }

    /// Bitwise XOR: bits that vary in either operand may take any value, the
    /// others follow the lower ends.
    pub fn bit_xor(self, rhs: Self) -> (r: Self)
        requires
            self.lo >= 0,
            rhs.lo >= 0,
        ensures
            r == self.spec_bitxor(rhs),
    {
        let var1 = varying_bits(self.lo, self.hi);
        let var2 = varying_bits(rhs.lo, rhs.hi);
        let base = (self.lo as u128) ^ (rhs.lo as u128);
        let var_result = var1 | var2;
        let res_lo = base & !var_result;
        let res_hi = base | var_result;
        Self { lo: #[verifier::truncate] (res_lo as i128), hi: #[verifier::truncate] (res_hi as i128) }
    }

    pub open spec fn spec_bitnot(self) -> Self {
        Self { lo: !self.hi, hi: !self.lo }
    }

    /// Bitwise NOT `[!hi, !lo]`.
    pub fn bit_not(self) -> (r: Self)
        requires
            self.lo >= 0,
        ensures
            r == self.spec_bitnot(),
    {
        Self { lo: !self.hi, hi: !self.lo }
    }

    pub open spec fn shl_ok(self, rhs: Self) -> bool {
        if self.lo < 0 || rhs.lo < 0 {
            (self.lo == self.hi && rhs.lo == rhs.hi) ==> 0 <= rhs.lo < 128
        } else {
            (rhs.lo as u32) < 128 && (rhs.hi as u32) < 128
        }
    }

    pub open spec fn spec_shl(self, rhs: Self) -> Self {
        if self.lo < 0 || rhs.lo < 0 {
            if self.lo == self.hi && rhs.lo == rhs.hi {
                Self { lo: self.lo << (rhs.lo as u32), hi: self.lo << (rhs.lo as u32) }
            } else {
                Self { lo: 0, hi: (SHIFT_FALLBACK_PRIME - 1) as i128 }
            }
        } else {
            Self { lo: self.lo << (rhs.lo as u32), hi: self.hi << (rhs.hi as u32) }
        }
    }

    /// Left shift: the lower end by the least amount, the upper end by the
    /// greatest. With a negative value present the result is exact for two
    /// single values and the whole KoalaBear field otherwise.
    pub fn shl(self, rhs: Self) -> (r: Self)
        requires
            self.shl_ok(rhs),
        ensures
            r == self.spec_shl(rhs),
    {
        if self.lo < 0 || rhs.lo < 0 {
            if self.is_singleton() && rhs.is_singleton() {
                let val = self.lo << (rhs.lo as u32);
                return Self { lo: val, hi: val };
            } else {
                return Self::top(SHIFT_FALLBACK_PRIME);
            }
        }
        let min_shift = #[verifier::truncate] (rhs.lo as u32);
        let max_shift = #[verifier::truncate] (rhs.hi as u32);
        let lo = self.lo << min_shift;
        let hi = self.hi << max_shift;
        Self { lo, hi }
    }

    pub open spec fn spec_shr(self, rhs: Self) -> Self {
        if self.lo < 0 || rhs.lo < 0 {
            if self.lo == self.hi && rhs.lo == rhs.hi {
                Self { lo: self.lo >> (rhs.lo as u32), hi: self.lo >> (rhs.lo as u32) }
            } else {
                Self { lo: 0, hi: (SHIFT_FALLBACK_PRIME - 1) as i128 }
            }
        } else {
            Self { lo: self.lo >> (rhs.hi as u32), hi: self.hi >> (rhs.lo as u32) }
        }
    }

    /// Arithmetic right shift: the lower end by the greatest amount, the upper
    /// end by the least. With a negative value present the result is exact for
    /// two single values and the whole KoalaBear field otherwise.
    pub fn shr(self, rhs: Self) -> (r: Self)
        requires
            self.shl_ok(rhs),
        ensures
            r == self.spec_shr(rhs),
    {
        if self.lo < 0 || rhs.lo < 0 {
            if self.is_singleton() && rhs.is_singleton() {
                let val = self.lo >> (rhs.lo as u32);
                return Self { lo: val, hi: val };
            } else {
                return Self::top(SHIFT_FALLBACK_PRIME);
            }
        }
        let min_shift = #[verifier::truncate] (rhs.lo as u32);
        let max_shift = #[verifier::truncate] (rhs.hi as u32);
        let lo = self.lo >> max_shift;
        let hi = self.hi >> min_shift;
        Self { lo, hi }
    }
}

impl AbstractInterval {
    pub open spec fn to_signed_ok(self, bits: u32) -> bool {
        &&& 1 <= bits <= 64
        &&& (self.lo >= pow2((bits - 1) as nat) ==> in_i128(self.hi - pow2(bits as nat)))
    }

    pub open spec fn spec_to_signed(self, bits: u32) -> Self {
        let half = pow2((bits - 1) as nat) as int;
        let full = pow2(bits as nat) as int;
        if self.lo >= half {
            Self { lo: (self.lo - full) as i128, hi: (self.hi - full) as i128 }
        } else if self.hi >= half {
            Self { lo: (-half) as i128, hi: (half - 1) as i128 }
        } else {
            self
        }
    }

    /// Reads an interval of `bits`-bit unsigned values as two's complement
    /// values: an interval wholly in the upper half moves down by `2^bits`, one
    /// that crosses the middle becomes the whole signed range, the rest stays.
    pub fn to_signed(&self, bits: u32) -> (r: Self)
        requires
            self.to_signed_ok(bits),
        ensures
            r == self.spec_to_signed(bits),
    {
        proof {
            lemma_pow2_values_to_64(bits as nat);
            lemma_pow2_values_to_64((bits - 1) as nat);
        }
        let half: i128 = 1i128 << ((bits - 1) as u32);
        let full: i128 = 1i128 << bits;
        proof {
            lemma_shl_one_is_pow2((bits - 1) as u32);
            lemma_shl_one_is_pow2(bits);
        }
        if self.lo >= half {
            Self { lo: self.lo - full, hi: self.hi - full }
        } else if self.hi >= half {
            Self { lo: -half, hi: half - 1 }
        } else {
            *self
        }
    }

    pub open spec fn modulo_ok(self, m: int) -> bool {
        &&& 0 < m <= i128::MAX
        &&& self.div_floor_ok(m)
    }

    pub open spec fn spec_modulo(self, m: int) -> Self {
        if (self.lo as int) / m == (self.hi as int) / m {
            Self { lo: ((self.lo as int) % m) as i128, hi: ((self.hi as int) % m) as i128 }
        } else {
            Self { lo: 0, hi: (m - 1) as i128 }
        }
    }

    /// The values modulo `m`: exact when both ends lie in the same block of
    /// `m` consecutive values, `[0, m - 1]` otherwise.
    pub fn modulo(&self, m: i128) -> (r: Self)
        requires
            self.modulo_ok(m as int),
        ensures
            r == self.spec_modulo(m as int),
    {
        let qlo = div_floor_i128(self.lo, m);
        let qhi = div_floor_i128(self.hi, m);
        if qlo == qhi {
            Self { lo: rem_euclid_i128(self.lo, m), hi: rem_euclid_i128(self.hi, m) }
        } else {
            Self { lo: 0, hi: m - 1 }
        }
    }

    pub open spec fn spec_shr_carry(self, rhs: Self) -> (Self, Self) {
        let carry = if self.lo >= 0 && self.lo == self.hi && rhs.lo == rhs.hi && 0 <= rhs.lo
            < 127 {
            let c = (self.lo as int) % (pow2(rhs.lo as nat) as int);
            Self { lo: c as i128, hi: c as i128 }
        } else if 0 <= rhs.lo && 0 <= rhs.hi < 127 {
            Self { lo: 0, hi: (pow2(rhs.hi as nat) - 1) as i128 }
        } else {
            Self { lo: 0, hi: (SHIFT_FALLBACK_PRIME - 1) as i128 }
        };
        (self.spec_shr(rhs), carry)
    }

    /// Right shift together with the bits shifted out: the carry is exact for
    /// a single non-negative value and a single shift amount, otherwise the
    /// range of values the shifted-out bits can form.
    pub fn shr_carry(self, rhs: Self) -> (r: (Self, Self))
        requires
            self.shl_ok(rhs),
        ensures
            r == self.spec_shr_carry(rhs),
    {
        let shifted = self.shr(rhs);
        let carry = if self.lo >= 0 && self.lo == self.hi && rhs.lo == rhs.hi && 0 <= rhs.lo
            && rhs.lo < 127 {
            let s = rhs.lo as u32;
            let unit: i128 = 1i128 << s;
            proof {
                lemma_shl_one_is_pow2(s);
            }
            let c = self.lo % unit;
            Self { lo: c, hi: c }
        } else if 0 <= rhs.lo && 0 <= rhs.hi && rhs.hi < 127 {
            let s = rhs.hi as u32;
            let unit: i128 = 1i128 << s;
            proof {
                lemma_shl_one_is_pow2(s);
            }
            Self { lo: 0, hi: unit - 1 }
        } else {
            Self::top(SHIFT_FALLBACK_PRIME)
        };
        (shifted, carry)
    }
}

/// `1 << s` on `i128` is `2^s` for shifts below 127.
pub proof fn lemma_shl_one_is_pow2(s: u32)
    requires
        s < 127,
    ensures
        (1i128 << s) as int == pow2(s as nat),
        0 < (1i128 << s) <= 0x4000_0000_0000_0000_0000_0000_0000_0000,
    decreases s,
{
    assert(0 < (1i128 << s) && (1i128 << s) <= 0x4000_0000_0000_0000_0000_0000_0000_0000) by (bit_vector)
        requires
            s < 127,
    ;
    if s == 0 {
        vstd::arithmetic::power2::lemma2_to64();
        assert((1i128 << 0u32) == 1) by (bit_vector);
    } else {
        let t = (s - 1) as u32;
        lemma_shl_one_is_pow2(t);
        lemma_pow2_unfold(s as nat);
        assert((1i128 << s) == (1i128 << t) * 2) by (bit_vector)
            requires
                s == t + 1,
                t < 126,
        ;
    }
}

/// Exact values of `2^e` up to `2^64`.
pub proof fn lemma_pow2_values_to_64(e: nat)
    requires
        e <= 64,
    ensures
        pow2(e) <= 0x1_0000_0000_0000_0000,
        pow2(e) >= 1,
{
    vstd::arithmetic::power2::lemma_pow2_pos(e);
    vstd::arithmetic::power2::lemma2_to64();
    if e < 64 {
        vstd::arithmetic::power2::lemma_pow2_strictly_increases(e, 64);
    }
}

pub fn min_i128(a: i128, b: i128) -> (r: i128)
    ensures
        r == min2(a as int, b as int),
{
    if a <= b {
        a
    } else {
        b
    }
}

pub fn max_i128(a: i128, b: i128) -> (r: i128)
    ensures
        r == max2(a as int, b as int),
{
    if a >= b {
        a
    } else {
        b
    }
}

/// The floor quotient of `x - 1` is one below that of `x` exactly when `k`
/// divides `x`.
proof fn lemma_pred_floor_div(x: int, k: int)
    requires
        k > 0,
    ensures
        x % k == 0 ==> (x - 1) / k == x / k - 1,
        x % k != 0 ==> (x - 1) / k == x / k,
{
    vstd::arithmetic::div_mod::lemma_fundamental_div_mod(x, k);
    let q = x / k;
    let r = x % k;
    if r == 0 {
        assert(x - 1 == (q - 1) * k + (k - 1)) by (nonlinear_arith)
            requires
                x == k * q + r,
                r == 0,
        ;
        vstd::arithmetic::div_mod::lemma_fundamental_div_mod_converse(x - 1, k, q - 1, k - 1);
    } else {
        assert(x - 1 == q * k + (r - 1)) by (nonlinear_arith)
            requires
                x == k * q + r,
        ;
        vstd::arithmetic::div_mod::lemma_fundamental_div_mod_converse(x - 1, k, q, r - 1);
    }
}

/// A floor quotient by `k` of an `i128` that `k` does not divide leaves room
/// for one more.
proof fn lemma_floor_div_room(x: int, k: int)
    requires
        k > 0,
        x % k != 0,
        x <= i128::MAX,
    ensures
        x / k < i128::MAX,
{
    vstd::arithmetic::div_mod::lemma_fundamental_div_mod(x, k);
    let q = x / k;
    let r = x % k;
    assert(k >= 2);
    assert(q < i128::MAX) by (nonlinear_arith)
        requires
            x == k * q + r,
            0 <= r,
            k >= 2,
            x <= i128::MAX,
    ;
}

proof fn lemma_trunc_rem_zero(a: int, p: int, t: int)
    requires
        p > 0,
        t == trunc_rem(a, p),
    ensures
        (t == 0) == (a % p == 0),
{
    if a < 0 {
        let b = -a;
        vstd::arithmetic::div_mod::lemma_fundamental_div_mod(b, p);
        vstd::arithmetic::div_mod::lemma_fundamental_div_mod(a, p);
        let qb = b / p;
        let rb = b % p;
        if rb == 0 {
            assert(a == (-qb) * p + 0) by (nonlinear_arith)
                requires
                    b == p * qb + rb,
                    b == -a,
                    rb == 0,
            ;
            vstd::arithmetic::div_mod::lemma_fundamental_div_mod_converse(a, p, -qb, 0);
        } else {
            assert(a == (-qb - 1) * p + (p - rb)) by (nonlinear_arith)
                requires
                    b == p * qb + rb,
                    b == -a,
            ;
            vstd::arithmetic::div_mod::lemma_fundamental_div_mod_converse(a, p, -qb - 1, p - rb);
        }
    }
}

proof fn lemma_trunc_rem_shift(a: int, p: int, t: int, s: int)
    requires
        p > 0,
        t == trunc_rem(a, p),
        s == trunc_rem(t + p, p),
    ensures
        s == a % p,
        0 <= s < p,
{
    if a >= 0 {
        vstd::arithmetic::div_mod::lemma_fundamental_div_mod(a, p);
        vstd::arithmetic::div_mod::lemma_fundamental_div_mod_converse(t + p, p, 1, t);
    } else {
        let b = -a;
        vstd::arithmetic::div_mod::lemma_fundamental_div_mod(b, p);
        let qb = b / p;
        let rb = b % p;
        if rb == 0 {
            vstd::arithmetic::div_mod::lemma_fundamental_div_mod_converse(t + p, p, 1, 0);
            assert(a == (-qb) * p + 0) by (nonlinear_arith)
                requires
                    b == p * qb + rb,
                    b == -a,
                    rb == 0,
            ;
            vstd::arithmetic::div_mod::lemma_fundamental_div_mod_converse(a, p, -qb, 0);
        } else {
            vstd::arithmetic::div_mod::lemma_fundamental_div_mod_converse(t + p, p, 0, p - rb);
            assert(a == (-qb - 1) * p + (p - rb)) by (nonlinear_arith)
                requires
                    b == p * qb + rb,
                    b == -a,
            ;
            vstd::arithmetic::div_mod::lemma_fundamental_div_mod_converse(a, p, -qb - 1, p - rb);
        }
    }
}

} // verus!
