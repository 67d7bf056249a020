use vstd::prelude::*;

use crate::symbolic::{ExprWord, ZEBRASymbolicExpr};
use crate::interval::{
    cover_mask, div_floor_i128, div_trunc_i128, rem_euclid_i128, in_i128, mask_cover, max4, max_i128, min4, min_i128,
    trunc_div_any, AbstractInterval,
};

verus! {

/// A 32-bit word as four byte limbs, least significant first.
pub type Word = [AbstractInterval; 4];

pub const WORD_BITS: u32 = 32;

/// `2^32`, the number of 32-bit words.
pub const WORD_BOUND: i128 = 4294967296;

/// Bound on the magnitude of a limb end that keeps every word computation within `i128`.
pub const LIMB_BOUND: i128 = 0x1_0000_0000_0000_0000_0000_0000;

/// Bound on the magnitude of the composed value of a word whose limbs are within `LIMB_BOUND`.
pub const WORD_VALUE_BOUND: i128 = 0x0200_0000_0000_0000_0000_0000_0000_0000;

/// The word operations of the ALU.
#[derive(Debug)]
pub enum WordOp {
    Add,
    Sub,
    SubU,
    Mul,
    MulH,
    MulHU,
    MulHS,
    MulTL,
    MulTH,
    MulTUL,
    MulTUH,
    And,
    Or,
    Xor,
    Lt,
    SLe,
    SLt,
    SRL,
    Eq,
    NEq,
    Div,
    SDiv,
}

pub open spec fn limb_ok(x: AbstractInterval) -> bool {
    &&& -LIMB_BOUND <= x.lo <= LIMB_BOUND
    &&& -LIMB_BOUND <= x.hi <= LIMB_BOUND
}

/// Every limb end of the word has magnitude at most `LIMB_BOUND`.
pub open spec fn word_ok(w: Word) -> bool {
    limb_ok(w[0]) && limb_ok(w[1]) && limb_ok(w[2]) && limb_ok(w[3])
}

pub open spec fn spec_word_to_unsigned(w: Word) -> AbstractInterval {
    AbstractInterval {
        lo: (w[0].lo + 256 * w[1].lo + 65536 * w[2].lo + 16777216 * w[3].lo) as i128,
        hi: (w[0].hi + 256 * w[1].hi + 65536 * w[2].hi + 16777216 * w[3].hi) as i128,
    }
}

pub open spec fn spec_full_word() -> AbstractInterval {
    AbstractInterval { lo: 0, hi: (WORD_BOUND - 1) as i128 }
}

/// The interval of unsigned values the limbs can compose: `sum limb * 256^i`.
pub fn word_to_unsigned(word: &Word) -> (r: AbstractInterval)
    requires
        word_ok(*word),
    ensures
        r == spec_word_to_unsigned(*word),
        r.lo == word[0].lo + 256 * word[1].lo + 65536 * word[2].lo + 16777216 * word[3].lo,
        r.hi == word[0].hi + 256 * word[1].hi + 65536 * word[2].hi + 16777216 * word[3].hi,
        -WORD_VALUE_BOUND <= r.lo <= WORD_VALUE_BOUND,
        -WORD_VALUE_BOUND <= r.hi <= WORD_VALUE_BOUND,
{
    let lo = word[0].lo + word[1].lo * 256 + word[2].lo * 65536 + word[3].lo * 16777216;
    let hi = word[0].hi + word[1].hi * 256 + word[2].hi * 65536 + word[3].hi * 16777216;
    AbstractInterval { lo, hi }
}

/// Every 32-bit value: `[0, 2^32 - 1]`.
pub fn full_word() -> (r: AbstractInterval)
    ensures
        r == spec_full_word(),
{
    AbstractInterval { lo: 0, hi: WORD_BOUND - 1 }
}

pub open spec fn spec_word_add(a: Word, b: Word) -> AbstractInterval {
    let ua = spec_word_to_unsigned(a);
    let ub = spec_word_to_unsigned(b);
    if ua.hi + ub.hi >= WORD_BOUND {
        spec_full_word()
    } else {
        AbstractInterval { lo: (ua.lo + ub.lo) as i128, hi: (ua.hi + ub.hi) as i128 }
    }
}

/// Unsigned word sum without wrap-around: every word when it may overflow.
pub fn word_add(a: &Word, b: &Word) -> (r: AbstractInterval)
    requires
        word_ok(*a),
        word_ok(*b),
    ensures
        r == spec_word_add(*a, *b),
{
    let a = word_to_unsigned(a);
    let b = word_to_unsigned(b);
    let lo = a.lo + b.lo;
    let hi = a.hi + b.hi;
    if hi >= WORD_BOUND {
        full_word()
    } else {
        AbstractInterval { lo, hi }
    }
}

pub open spec fn spec_word_sub(a: Word, b: Word) -> AbstractInterval {
    let ua = spec_word_to_unsigned(a);
    let ub = spec_word_to_unsigned(b);
    if ua.lo >= ub.hi {
        AbstractInterval { lo: (ua.lo - ub.hi) as i128, hi: (ua.hi - ub.lo) as i128 }
    } else {
        spec_full_word()
    }
}

/// Unsigned word difference: exact when it surely does not underflow,
/// every word otherwise.
pub fn word_sub(a: &Word, b: &Word) -> (r: AbstractInterval)
    requires
        word_ok(*a),
        word_ok(*b),
    ensures
        r == spec_word_sub(*a, *b),
{
    let a = word_to_unsigned(a);
    let b = word_to_unsigned(b);
    if a.lo >= b.hi {
        AbstractInterval { lo: a.lo - b.hi, hi: a.hi - b.lo }
    } else {
        full_word()
    }
}

pub open spec fn clamp_word(x: int) -> int {
    if x < 0 {
        0
    } else if x > WORD_BOUND - 1 {
        WORD_BOUND - 1
    } else {
        x
    }
}

pub open spec fn spec_word_addu(b: Word, c: Word) -> AbstractInterval {
    let ub = spec_word_to_unsigned(b);
    let uc = spec_word_to_unsigned(c);
    if ub.lo == ub.hi && uc.lo == uc.hi {
        let res = (ub.lo + uc.lo) % (WORD_BOUND as int);
        AbstractInterval { lo: res as i128, hi: res as i128 }
    } else if ub.hi + uc.hi < WORD_BOUND {
        AbstractInterval { lo: (ub.lo + uc.lo) as i128, hi: (ub.hi + uc.hi) as i128 }
    } else if ub.lo + uc.lo >= WORD_BOUND {
        AbstractInterval {
            lo: clamp_word(ub.lo + uc.lo - WORD_BOUND) as i128,
            hi: clamp_word(ub.hi + uc.hi - WORD_BOUND) as i128,
        }
    } else {
        spec_full_word()
    }
}

fn clamp_to_word(x: i128) -> (r: i128)
    ensures
        r == clamp_word(x as int),
{
    if x < 0 {
        0
    } else if x > WORD_BOUND - 1 {
        WORD_BOUND - 1
    } else {
        x
    }
}

/// Euclidean remainder modulo `2^32`.
fn rem_word(x: i128) -> (r: i128)
    ensures
        r == (x as int) % (WORD_BOUND as int),
{
    rem_euclid_i128(x, WORD_BOUND)
}

/// 32-bit wrapping sum: exact for single values, shifted down by `2^32`
/// when it surely overflows, every word when it may or may not.
pub fn word_addu(b: &Word, c: &Word) -> (r: AbstractInterval)
    requires
        word_ok(*b),
        word_ok(*c),
    ensures
        r == spec_word_addu(*b, *c),
{
    let b = word_to_unsigned(b);
    let c = word_to_unsigned(c);
    if b.is_singleton() && c.is_singleton() {
        let res = rem_word(b.lo + c.lo);
        return AbstractInterval { lo: res, hi: res };
    }
    if b.hi + c.hi < WORD_BOUND {
        return AbstractInterval { lo: b.lo + c.lo, hi: b.hi + c.hi };
    }
    if b.lo + c.lo >= WORD_BOUND {
        let lo = b.lo + c.lo - WORD_BOUND;
        let hi = b.hi + c.hi - WORD_BOUND;
        return AbstractInterval { lo: clamp_to_word(lo), hi: clamp_to_word(hi) };
    }
    full_word()
}

pub open spec fn spec_word_subu(b: Word, c: Word) -> AbstractInterval {
    let ub = spec_word_to_unsigned(b);
    let uc = spec_word_to_unsigned(c);
    if ub.lo == ub.hi && uc.lo == uc.hi {
        let res = (ub.lo - uc.lo) % (WORD_BOUND as int);
        AbstractInterval { lo: res as i128, hi: res as i128 }
    } else if ub.lo >= uc.hi {
        AbstractInterval { lo: (ub.lo - uc.hi) as i128, hi: (ub.hi - uc.lo) as i128 }
    } else if ub.hi < uc.lo {
        AbstractInterval {
            lo: clamp_word(ub.lo + (WORD_BOUND - uc.hi)) as i128,
            hi: clamp_word(ub.hi + (WORD_BOUND - uc.lo)) as i128,
        }
    } else {
        spec_full_word()
    }
}

/// 32-bit wrapping difference: exact for single values, shifted up by `2^32`
/// when it surely underflows, every word when it may or may not.
pub fn word_subu(b: &Word, c: &Word) -> (r: AbstractInterval)
    requires
        word_ok(*b),
        word_ok(*c),
    ensures
        r == spec_word_subu(*b, *c),
{
    let b = word_to_unsigned(b);
    let c = word_to_unsigned(c);
    if b.is_singleton() && c.is_singleton() {
        let res = rem_word(b.lo - c.lo);
        return AbstractInterval { lo: res, hi: res };
    }
    if b.lo >= c.hi {
        return AbstractInterval { lo: b.lo - c.hi, hi: b.hi - c.lo };
    }
    if b.hi < c.lo {
        let lo = b.lo + (WORD_BOUND - c.hi);
        let hi = b.hi + (WORD_BOUND - c.lo);
        return AbstractInterval { lo: clamp_to_word(lo), hi: clamp_to_word(hi) };
    }
    full_word()
}

/// The unsigned products of the two words' ends stay within `i128`.
pub open spec fn word_mul_ok(a: Word, b: Word) -> bool {
    let ua = spec_word_to_unsigned(a);
    let ub = spec_word_to_unsigned(b);
    &&& word_ok(a)
    &&& word_ok(b)
    &&& in_i128(ua.lo * ub.lo)
    &&& in_i128(ua.hi * ub.hi)
}

pub open spec fn spec_word_mul(a: Word, b: Word) -> AbstractInterval {
    let ua = spec_word_to_unsigned(a);
    let ub = spec_word_to_unsigned(b);
    if ua.hi * ub.hi >= WORD_BOUND {
        spec_full_word()
    } else {
        AbstractInterval { lo: (ua.lo * ub.lo) as i128, hi: (ua.hi * ub.hi) as i128 }
    }
}

/// Low 32 bits of the product: `[lo * lo', hi * hi']` when it surely fits,
/// every word otherwise.
pub fn word_mul(a: &Word, b: &Word) -> (r: AbstractInterval)
    requires
        word_mul_ok(*a, *b),
    ensures
        r == spec_word_mul(*a, *b),
{
    let a = word_to_unsigned(a);
    let b = word_to_unsigned(b);
    let lo = a.lo * b.lo;
    let hi = a.hi * b.hi;
    if hi >= WORD_BOUND {
        full_word()
    } else {
        AbstractInterval { lo, hi }
    }
}

pub open spec fn spec_word_mulhu(a: Word, b: Word) -> AbstractInterval {
    let ua = spec_word_to_unsigned(a);
    let ub = spec_word_to_unsigned(b);
    AbstractInterval {
        lo: ((ua.lo * ub.lo) / (WORD_BOUND as int)) as i128,
        hi: ((ua.hi * ub.hi) / (WORD_BOUND as int)) as i128,
    }
}

/// High 32 bits of the unsigned product of the ends (rounded down).
pub fn word_mulhu(a: &Word, b: &Word) -> (r: AbstractInterval)
    requires
        word_mul_ok(*a, *b),
    ensures
        r == spec_word_mulhu(*a, *b),
{
    let a = word_to_unsigned(a);
    let b = word_to_unsigned(b);
    let plo = a.lo * b.lo;
    let phi = a.hi * b.hi;
    proof {
        crate::interval::lemma_div_in_range(plo as int, WORD_BOUND as int);
        crate::interval::lemma_div_in_range(phi as int, WORD_BOUND as int);
    }
    let lo = div_floor_i128(plo, WORD_BOUND);
    let hi = div_floor_i128(phi, WORD_BOUND);
    AbstractInterval { lo, hi }
}

/// Both words read as signed 32-bit values stay within `i128` when multiplied.
pub open spec fn word_signed_mul_ok(a: Word, b: Word) -> bool {
    let sa = spec_word_to_unsigned(a).spec_to_signed(WORD_BITS);
    let sb = spec_word_to_unsigned(b).spec_to_signed(WORD_BITS);
    &&& word_ok(a)
    &&& word_ok(b)
    &&& spec_word_to_unsigned(a).to_signed_ok(WORD_BITS)
    &&& spec_word_to_unsigned(b).to_signed_ok(WORD_BITS)
    &&& sa.mul_ok(sb)
}

pub open spec fn signed_corner_min(a: Word, b: Word) -> int {
    let sa = spec_word_to_unsigned(a).spec_to_signed(WORD_BITS);
    let sb = spec_word_to_unsigned(b).spec_to_signed(WORD_BITS);
    min4(sa.lo * sb.lo, sa.lo * sb.hi, sa.hi * sb.lo, sa.hi * sb.hi)
}

pub open spec fn signed_corner_max(a: Word, b: Word) -> int {
    let sa = spec_word_to_unsigned(a).spec_to_signed(WORD_BITS);
    let sb = spec_word_to_unsigned(b).spec_to_signed(WORD_BITS);
    max4(sa.lo * sb.lo, sa.lo * sb.hi, sa.hi * sb.lo, sa.hi * sb.hi)
}

pub open spec fn spec_word_mulhs(a: Word, b: Word) -> AbstractInterval {
    AbstractInterval {
        lo: (signed_corner_min(a, b) / (WORD_BOUND as int)) as i128,
        hi: (signed_corner_max(a, b) / (WORD_BOUND as int)) as i128,
    }
}

/// Least and greatest signed corner products of two words (as signed 32-bit values).
fn signed_corners(a: &Word, b: &Word) -> (r: (i128, i128))
    requires
        word_signed_mul_ok(*a, *b),
    ensures
        r.0 == signed_corner_min(*a, *b),
        r.1 == signed_corner_max(*a, *b),
{
    let a = word_to_unsigned(a).to_signed(WORD_BITS);
    let b = word_to_unsigned(b).to_signed(WORD_BITS);
    let c0 = a.lo * b.lo;
    let c1 = a.lo * b.hi;
    let c2 = a.hi * b.lo;
    let c3 = a.hi * b.hi;
    (min_i128(min_i128(min_i128(c0, c1), c2), c3), max_i128(max_i128(max_i128(c0, c1), c2), c3))
}

/// High 32 bits of the signed product: the least and greatest corner
/// products of the signed readings, rounded down.
pub fn word_mulhs(a: &Word, b: &Word) -> (r: AbstractInterval)
    requires
        word_signed_mul_ok(*a, *b),
    ensures
        r == spec_word_mulhs(*a, *b),
{
    let (min, max) = signed_corners(a, b);
    proof {
        crate::interval::lemma_div_in_range(min as int, WORD_BOUND as int);
        crate::interval::lemma_div_in_range(max as int, WORD_BOUND as int);
    }
    let lo = div_floor_i128(min, WORD_BOUND);
    let hi = div_floor_i128(max, WORD_BOUND);
    AbstractInterval { lo, hi }
}

pub open spec fn spec_word_mult(a: Word, b: Word) -> (AbstractInterval, AbstractInterval) {
    let min = signed_corner_min(a, b);
    let max = signed_corner_max(a, b);
    (
        AbstractInterval {
            lo: (min % (WORD_BOUND as int)) as i128,
            hi: (max % (WORD_BOUND as int)) as i128,
        },
        AbstractInterval {
            lo: (min / (WORD_BOUND as int)) as i128,
            hi: (max / (WORD_BOUND as int)) as i128,
        },
    )
}

/// Signed 64-bit product split in low and high words: the low and high
/// halves of the least and the greatest signed corner products.
pub fn word_mult(a: &Word, b: &Word) -> (r: (AbstractInterval, AbstractInterval))
    requires
        word_signed_mul_ok(*a, *b),
    ensures
        r == spec_word_mult(*a, *b),
{
    let (min, max) = signed_corners(a, b);
    proof {
        crate::interval::lemma_div_in_range(min as int, WORD_BOUND as int);
        crate::interval::lemma_div_in_range(max as int, WORD_BOUND as int);
    }
    let lo = AbstractInterval { lo: rem_word(min), hi: rem_word(max) };
    let hi = AbstractInterval {
        lo: div_floor_i128(min, WORD_BOUND),
        hi: div_floor_i128(max, WORD_BOUND),
    };
    (lo, hi)
}

pub open spec fn spec_word_multu(a: Word, b: Word) -> (AbstractInterval, AbstractInterval) {
    let ua = spec_word_to_unsigned(a);
    let ub = spec_word_to_unsigned(b);
    let lo_prod = ua.lo * ub.lo;
    let hi_prod = ua.hi * ub.hi;
    (
        AbstractInterval {
            lo: (lo_prod % (WORD_BOUND as int)) as i128,
            hi: (hi_prod % (WORD_BOUND as int)) as i128,
        },
        AbstractInterval {
            lo: (lo_prod / (WORD_BOUND as int)) as i128,
            hi: (hi_prod / (WORD_BOUND as int)) as i128,
        },
    )
}

/// Unsigned 64-bit product split in low and high words, from the products
/// of the lower ends and of the upper ends.
pub fn word_multu(a: &Word, b: &Word) -> (r: (AbstractInterval, AbstractInterval))
    requires
        word_mul_ok(*a, *b),
    ensures
        r == spec_word_multu(*a, *b),
{
    let a = word_to_unsigned(a);
    let b = word_to_unsigned(b);
    let lo_prod = a.lo * b.lo;
    let hi_prod = a.hi * b.hi;
    proof {
        crate::interval::lemma_div_in_range(lo_prod as int, WORD_BOUND as int);
        crate::interval::lemma_div_in_range(hi_prod as int, WORD_BOUND as int);
    }
    let lo = AbstractInterval { lo: rem_word(lo_prod), hi: rem_word(hi_prod) };
    let hi = AbstractInterval {
        lo: div_floor_i128(lo_prod, WORD_BOUND),
        hi: div_floor_i128(hi_prod, WORD_BOUND),
    };
    (lo, hi)
}

/// The divisor's ends are non-zero wherever the division is carried out.
pub open spec fn word_div_ok(a: Word, b: Word) -> bool {
    let ub = spec_word_to_unsigned(b);
    &&& word_ok(a)
    &&& word_ok(b)
    &&& (ub.lo != 0 ==> ub.hi != 0)
}

pub open spec fn spec_word_div(a: Word, b: Word) -> AbstractInterval {
    let ua = spec_word_to_unsigned(a);
    let ub = spec_word_to_unsigned(b);
    if ub.lo == 0 {
        spec_full_word()
    } else {
        AbstractInterval {
            lo: trunc_div_any(ua.lo as int, ub.hi as int) as i128,
            hi: trunc_div_any(ua.hi as int, ub.lo as int) as i128,
        }
    }
}

/// Unsigned division: every word when the divisor may be zero, otherwise
/// `[lo / hi', hi / lo']` (Rust division).
pub fn word_div(a: &Word, b: &Word) -> (r: AbstractInterval)
    requires
        word_div_ok(*a, *b),
    ensures
        r == spec_word_div(*a, *b),
{
    let a = word_to_unsigned(a);
    let b = word_to_unsigned(b);
    if b.lo == 0 {
        return full_word();
    }
    AbstractInterval { lo: div_trunc_i128(a.lo, b.hi), hi: div_trunc_i128(a.hi, b.lo) }
}

pub open spec fn word_sdiv_ok(a: Word, b: Word) -> bool {
    let sb = spec_word_to_unsigned(b).spec_to_signed(WORD_BITS);
    &&& word_ok(a)
    &&& word_ok(b)
    &&& spec_word_to_unsigned(a).to_signed_ok(WORD_BITS)
    &&& spec_word_to_unsigned(b).to_signed_ok(WORD_BITS)
    &&& (!(sb.lo <= 0 && sb.hi >= 0) ==> sb.lo != 0 && sb.hi != 0)
}

pub open spec fn spec_word_sdiv(a: Word, b: Word) -> AbstractInterval {
    let sa = spec_word_to_unsigned(a).spec_to_signed(WORD_BITS);
    let sb = spec_word_to_unsigned(b).spec_to_signed(WORD_BITS);
    if sb.lo <= 0 && sb.hi >= 0 {
        spec_full_word()
    } else if sa.lo == -0x8000_0000 && sb.lo == -1 && sb.hi == -1 {
        spec_full_word()
    } else {
        let c0 = trunc_div_any(sa.lo as int, sb.lo as int);
        let c1 = trunc_div_any(sa.lo as int, sb.hi as int);
        let c2 = trunc_div_any(sa.hi as int, sb.lo as int);
        let c3 = trunc_div_any(sa.hi as int, sb.hi as int);
        AbstractInterval { lo: min4(c0, c1, c2, c3) as i128, hi: max4(c0, c1, c2, c3) as i128 }
    }
}

/// Signed division of the signed readings: every word when the divisor may
/// be zero or for `INT_MIN / -1`, otherwise the least and greatest corner
/// quotients (Rust division).
pub fn word_sdiv(a: &Word, b: &Word) -> (r: AbstractInterval)
    requires
        word_sdiv_ok(*a, *b),
    ensures
        r == spec_word_sdiv(*a, *b),
{
    let ua = word_to_unsigned(a);
    let ub = word_to_unsigned(b);
    let a = ua.to_signed(WORD_BITS);
    let b = ub.to_signed(WORD_BITS);
    if b.lo <= 0 && b.hi >= 0 {
        return full_word();
    }
    if a.lo == -2147483648 && b.lo == -1 && b.hi == -1 {
        return full_word();
    }
    proof {
        lemma_signed_range(ua);
        lemma_signed_range(ub);
    }
    let c0 = div_trunc_i128(a.lo, b.lo);
    let c1 = div_trunc_i128(a.lo, b.hi);
    let c2 = div_trunc_i128(a.hi, b.lo);
    let c3 = div_trunc_i128(a.hi, b.hi);
    AbstractInterval {
        lo: min_i128(min_i128(min_i128(c0, c1), c2), c3),
        hi: max_i128(max_i128(max_i128(c0, c1), c2), c3),
    }
}

/// The signed reading of an interval within the word value bound stays
/// within that bound, widened by one word below.
pub proof fn lemma_signed_range(u: AbstractInterval)
    requires
        -WORD_VALUE_BOUND <= u.lo <= WORD_VALUE_BOUND,
        -WORD_VALUE_BOUND <= u.hi <= WORD_VALUE_BOUND,
        u.to_signed_ok(WORD_BITS),
    ensures
        -WORD_VALUE_BOUND - WORD_BOUND <= u.spec_to_signed(WORD_BITS).lo
            <= WORD_VALUE_BOUND,
        -WORD_VALUE_BOUND - WORD_BOUND <= u.spec_to_signed(WORD_BITS).hi
            <= WORD_VALUE_BOUND,
{
    vstd::arithmetic::power2::lemma2_to64();
}

pub open spec fn flag(b: bool, uncertain: bool) -> AbstractInterval {
    if uncertain {
        AbstractInterval { lo: 0, hi: 1 }
    } else if b {
        AbstractInterval { lo: 1, hi: 1 }
    } else {
        AbstractInterval { lo: 0, hi: 0 }
    }
}

pub open spec fn spec_word_ltu(a: Word, b: Word) -> AbstractInterval {
    let ua = spec_word_to_unsigned(a);
    let ub = spec_word_to_unsigned(b);
    if ua.hi < ub.lo {
        AbstractInterval { lo: 1, hi: 1 }
    } else if ua.lo >= ub.hi {
        AbstractInterval { lo: 0, hi: 0 }
    } else {
        AbstractInterval { lo: 0, hi: 1 }
    }
}

/// Unsigned "less than" flag of two words: `1` when surely less, `0` when
/// surely not, `{0, 1}` otherwise.
pub fn word_ltu(a: &Word, b: &Word) -> (r: AbstractInterval)
    requires
        word_ok(*a),
        word_ok(*b),
    ensures
        r == spec_word_ltu(*a, *b),
{
    let a = word_to_unsigned(a);
    let b = word_to_unsigned(b);
    if a.hi < b.lo {
        AbstractInterval { lo: 1, hi: 1 }
    } else if a.lo >= b.hi {
        AbstractInterval { lo: 0, hi: 0 }
    } else {
        AbstractInterval { lo: 0, hi: 1 }
    }
}

/// Both words can be read as signed 32-bit values.
pub open spec fn word_signed_ok(a: Word, b: Word) -> bool {
    &&& word_ok(a)
    &&& word_ok(b)
    &&& spec_word_to_unsigned(a).to_signed_ok(WORD_BITS)
    &&& spec_word_to_unsigned(b).to_signed_ok(WORD_BITS)
}

pub open spec fn spec_word_sle(a: Word, b: Word) -> AbstractInterval {
    let sa = spec_word_to_unsigned(a).spec_to_signed(WORD_BITS);
    let sb = spec_word_to_unsigned(b).spec_to_signed(WORD_BITS);
    if sa.hi <= sb.lo {
        AbstractInterval { lo: 1, hi: 1 }
    } else if sa.lo > sb.hi {
        AbstractInterval { lo: 0, hi: 0 }
    } else {
        AbstractInterval { lo: 0, hi: 1 }
    }
}

/// Signed "at most" flag of two words: `1` when surely at most, `0` when
/// surely above, `{0, 1}` otherwise.
pub fn word_sle(a: &Word, b: &Word) -> (r: AbstractInterval)
    requires
        word_signed_ok(*a, *b),
    ensures
        r == spec_word_sle(*a, *b),
{
    let a = word_to_unsigned(a).to_signed(WORD_BITS);
    let b = word_to_unsigned(b).to_signed(WORD_BITS);
    if a.hi <= b.lo {
        AbstractInterval { lo: 1, hi: 1 }
    } else if a.lo > b.hi {
        AbstractInterval { lo: 0, hi: 0 }
    } else {
        AbstractInterval { lo: 0, hi: 1 }
    }
}

pub open spec fn spec_word_slt(a: Word, b: Word) -> AbstractInterval {
    let sa = spec_word_to_unsigned(a).spec_to_signed(WORD_BITS);
    let sb = spec_word_to_unsigned(b).spec_to_signed(WORD_BITS);
    if sa.hi < sb.lo {
        AbstractInterval { lo: 1, hi: 1 }
    } else if sa.lo >= sb.hi {
        AbstractInterval { lo: 0, hi: 0 }
    } else {
        AbstractInterval { lo: 0, hi: 1 }
    }
}

/// Signed "less than" flag of two words.
pub fn word_slt(a: &Word, b: &Word) -> (r: AbstractInterval)
    requires
        word_signed_ok(*a, *b),
    ensures
        r == spec_word_slt(*a, *b),
{
    let a = word_to_unsigned(a).to_signed(WORD_BITS);
    let b = word_to_unsigned(b).to_signed(WORD_BITS);
    if a.hi < b.lo {
        AbstractInterval { lo: 1, hi: 1 }
    } else if a.lo >= b.hi {
        AbstractInterval { lo: 0, hi: 0 }
    } else {
        AbstractInterval { lo: 0, hi: 1 }
    }
}

pub open spec fn spec_word_and(a: Word, b: Word) -> AbstractInterval {
    let ua = spec_word_to_unsigned(a);
    let ub = spec_word_to_unsigned(b);
    if ua.lo == ua.hi && ub.lo == ub.hi {
        AbstractInterval { lo: ua.lo & ub.lo, hi: ua.lo & ub.lo }
    } else {
        AbstractInterval { lo: 0, hi: if ua.hi <= ub.hi { ua.hi } else { ub.hi } }
    }
}

/// Bitwise AND of two words: exact for single values, `[0, min(hi, hi')]` otherwise.
pub fn word_and(a: &Word, b: &Word) -> (r: AbstractInterval)
    requires
        word_ok(*a),
        word_ok(*b),
    ensures
        r == spec_word_and(*a, *b),
{
    let a = word_to_unsigned(a);
    let b = word_to_unsigned(b);
    if a.is_singleton() && b.is_singleton() {
        let res = a.lo & b.lo;
        AbstractInterval { lo: res, hi: res }
    } else {
        AbstractInterval {
            lo: 0,
            hi: if a.hi <= b.hi {
                a.hi
            } else {
                b.hi
            },
        }
    }
}

pub open spec fn spec_word_or(a: Word, b: Word) -> AbstractInterval {
    let ua = spec_word_to_unsigned(a);
    let ub = spec_word_to_unsigned(b);
    if ua.lo == ua.hi && ub.lo == ub.hi {
        AbstractInterval { lo: ua.lo | ub.lo, hi: ua.lo | ub.lo }
    } else {
        let mask = mask_cover((ua.hi | ub.hi) as nat) as int;
        AbstractInterval {
            lo: if ua.lo >= ub.lo { ua.lo } else { ub.lo },
            hi: if mask <= WORD_BOUND - 1 { mask as i128 } else { (WORD_BOUND - 1) as i128 },
        }
    }
}

/// Bitwise OR of two words: exact for single values; otherwise at least the
/// greater lower end and at most every bit up to the highest bit of either
/// upper end (capped at `2^32 - 1`).
pub fn word_or(a: &Word, b: &Word) -> (r: AbstractInterval)
    requires
        word_ok(*a),
        word_ok(*b),
        spec_word_to_unsigned(*a).lo == spec_word_to_unsigned(*a).hi && spec_word_to_unsigned(
            *b,
        ).lo == spec_word_to_unsigned(*b).hi || spec_word_to_unsigned(*a).hi
            | spec_word_to_unsigned(*b).hi >= 0,
    ensures
        r == spec_word_or(*a, *b),
{
    let a = word_to_unsigned(a);
    let b = word_to_unsigned(b);
    if a.is_singleton() && b.is_singleton() {
        let res = a.lo | b.lo;
        AbstractInterval { lo: res, hi: res }
    } else {
        let top = a.hi | b.hi;
        let mask = cover_mask(top as u128);
        AbstractInterval {
            lo: if a.lo >= b.lo {
                a.lo
            } else {
                b.lo
            },
            hi: if mask <= (WORD_BOUND - 1) as u128 {
                mask as i128
            } else {
                WORD_BOUND - 1
            },
        }
    }
}

pub open spec fn spec_word_xor(a: Word, b: Word) -> AbstractInterval {
    let ua = spec_word_to_unsigned(a);
    let ub = spec_word_to_unsigned(b);
    if ua.lo == ua.hi && ub.lo == ub.hi {
        AbstractInterval { lo: ua.lo ^ ub.lo, hi: ua.lo ^ ub.lo }
    } else {
        let mask = mask_cover((ua.hi | ub.hi) as nat) as int;
        AbstractInterval {
            lo: 0,
            hi: if mask <= WORD_BOUND - 1 { mask as i128 } else { (WORD_BOUND - 1) as i128 },
        }
    }
}

/// Bitwise XOR of two words: exact for single values; otherwise between 0
/// and every bit up to the highest bit of either upper end (capped at `2^32 - 1`).
pub fn word_xor(a: &Word, b: &Word) -> (r: AbstractInterval)
    requires
        word_ok(*a),
        word_ok(*b),
        spec_word_to_unsigned(*a).lo == spec_word_to_unsigned(*a).hi && spec_word_to_unsigned(
            *b,
        ).lo == spec_word_to_unsigned(*b).hi || spec_word_to_unsigned(*a).hi
            | spec_word_to_unsigned(*b).hi >= 0,
    ensures
        r == spec_word_xor(*a, *b),
{
    let a = word_to_unsigned(a);
    let b = word_to_unsigned(b);
    if a.is_singleton() && b.is_singleton() {
        let res = a.lo ^ b.lo;
        AbstractInterval { lo: res, hi: res }
    } else {
        let max_val = a.hi | b.hi;
        let mask = cover_mask(max_val as u128);
        AbstractInterval {
            lo: 0,
            hi: if mask <= (WORD_BOUND - 1) as u128 {
                mask as i128
            } else {
                WORD_BOUND - 1
            },
        }
    }
}

pub open spec fn spec_word_eq(a: Word, b: Word) -> AbstractInterval {
    let ua = spec_word_to_unsigned(a);
    let ub = spec_word_to_unsigned(b);
    if ua.lo == ua.hi && ub.lo == ub.hi && ua.lo == ub.lo {
        AbstractInterval { lo: 1, hi: 1 }
    } else if ua.hi < ub.lo || ub.hi < ua.lo {
        AbstractInterval { lo: 0, hi: 0 }
    } else {
        AbstractInterval { lo: 0, hi: 1 }
    }
}

/// Equality flag of two words: `1` for the same single value, `0` for
/// disjoint ranges, `{0, 1}` otherwise.
pub fn word_eq(a: &Word, b: &Word) -> (r: AbstractInterval)
    requires
        word_ok(*a),
        word_ok(*b),
    ensures
        r == spec_word_eq(*a, *b),
{
    let a = word_to_unsigned(a);
    let b = word_to_unsigned(b);
    if a.is_singleton() && b.is_singleton() && a.lo == b.lo {
        AbstractInterval::one()
    } else if a.hi < b.lo || b.hi < a.lo {
        AbstractInterval::zero()
    } else {
        AbstractInterval::bool()
    }
}

pub open spec fn spec_word_neq(a: Word, b: Word) -> AbstractInterval {
    let r = spec_word_eq(a, b);
    if r.lo == 1 && r.hi == 1 {
        AbstractInterval { lo: 0, hi: 0 }
    } else if r.lo == 0 && r.hi == 0 {
        AbstractInterval { lo: 1, hi: 1 }
    } else {
        AbstractInterval { lo: 0, hi: 1 }
    }
}

/// Inequality flag of two words: the complement of `word_eq`.
pub fn word_neq(a: &Word, b: &Word) -> (r: AbstractInterval)
    requires
        word_ok(*a),
        word_ok(*b),
    ensures
        r == spec_word_neq(*a, *b),
{
    let r = word_eq(a, b);
    if r.lo == 1 && r.hi == 1 {
        AbstractInterval::zero()
    } else if r.lo == 0 && r.hi == 0 {
        AbstractInterval::one()
    } else {
        AbstractInterval::bool()
    }
}

pub open spec fn word_srl_ok(a: Word, b: Word) -> bool {
    &&& word_ok(a)
    &&& word_ok(b)
    &&& spec_word_to_unsigned(b).lo < WORD_BITS ==> spec_word_to_unsigned(b).lo >= 0
    &&& spec_word_to_unsigned(b).lo < WORD_BITS && spec_word_to_unsigned(b).hi < WORD_BITS
        ==> spec_word_to_unsigned(b).hi >= 0
}

pub open spec fn spec_word_srl(a: Word, b: Word) -> AbstractInterval {
    let ua = spec_word_to_unsigned(a);
    let ub = spec_word_to_unsigned(b);
    if ub.lo >= WORD_BITS {
        AbstractInterval { lo: 0, hi: 0 }
    } else {
        AbstractInterval {
            lo: if ub.hi >= WORD_BITS { 0 } else { ua.lo >> (ub.hi as u32) },
            hi: ua.hi >> (ub.lo as u32),
        }
    }
}

/// Logical right shift of a word by a word: `0` when every amount is at
/// least 32; otherwise the lower end shifted by the greatest amount (0 when
/// that reaches 32) and the upper end by the least.
pub fn word_srl(a: &Word, b: &Word) -> (r: AbstractInterval)
    requires
        word_srl_ok(*a, *b),
    ensures
        r == spec_word_srl(*a, *b),
{
    let a = word_to_unsigned(a);
    let b = word_to_unsigned(b);
    if b.lo >= WORD_BITS as i128 {
        return AbstractInterval::zero();
    }
    let lo = if b.hi >= WORD_BITS as i128 {
        0
    } else {
        a.lo >> (b.hi as u32)
    };
    let hi = a.hi >> (b.lo as u32);
    AbstractInterval { lo, hi }
}

// ----------------------------------------------------------------------
// word constraints as expressions
// ----------------------------------------------------------------------

pub open spec fn const_expr(v: int) -> ZEBRASymbolicExpr {
    ZEBRASymbolicExpr::Constant(AbstractInterval { lo: v as i128, hi: v as i128 })
}

/// `(((0 + x0 * 1) + x1 * 256) + x2 * 65536) + x3 * 16777216`, the value of
/// the four byte limbs starting at `base`.
pub open spec fn spec_reconstruct_symbolic_word(row: Seq<ZEBRASymbolicExpr>, base: int) -> ZEBRASymbolicExpr {
    let limb = |i: int, m: int|
        ZEBRASymbolicExpr::Mul(Box::new(row[base + i]), Box::new(const_expr(m)));
    let t0 = ZEBRASymbolicExpr::Add(Box::new(const_expr(0)), Box::new(limb(0, 1)));
    let t1 = ZEBRASymbolicExpr::Add(Box::new(t0), Box::new(limb(1, 256)));
    let t2 = ZEBRASymbolicExpr::Add(Box::new(t1), Box::new(limb(2, 65536)));
    ZEBRASymbolicExpr::Add(Box::new(t2), Box::new(limb(3, 16777216)))
}

fn limb_term(x: &ZEBRASymbolicExpr, m: i128) -> (r: ZEBRASymbolicExpr)
    ensures
        r == ZEBRASymbolicExpr::Mul(Box::new(*x), Box::new(const_expr(m as int))),
{
    ZEBRASymbolicExpr::Mul(Box::new(x.deep_copy()), Box::new(ZEBRASymbolicExpr::Constant(AbstractInterval::from_i128(m))))
}

/// The expression for the value of the word whose byte limbs are
/// `row[base..base + 4]`, least significant first.
pub fn reconstruct_symbolic_word(row: &[ZEBRASymbolicExpr], base: usize) -> (r: ZEBRASymbolicExpr)
    requires
        base + 4 <= row@.len(),
    ensures
        r == spec_reconstruct_symbolic_word(row@, base as int),
{
    let t0 = ZEBRASymbolicExpr::Add(
        Box::new(ZEBRASymbolicExpr::Constant(AbstractInterval::zero())),
        Box::new(limb_term(&row[base], 1)),
    );
    let t1 = ZEBRASymbolicExpr::Add(Box::new(t0), Box::new(limb_term(&row[base + 1], 256)));
    let t2 = ZEBRASymbolicExpr::Add(Box::new(t1), Box::new(limb_term(&row[base + 2], 65536)));
    ZEBRASymbolicExpr::Add(Box::new(t2), Box::new(limb_term(&row[base + 3], 16777216)))
}

/// The four expressions as the limbs of a word.
pub open spec fn spec_expr_word(w: [ZEBRASymbolicExpr; 4]) -> ExprWord {
    ExprWord {
        l0: Box::new(w@[0]),
        l1: Box::new(w@[1]),
        l2: Box::new(w@[2]),
        l3: Box::new(w@[3]),
    }
}

pub fn expr_word(w: &[ZEBRASymbolicExpr; 4]) -> (r: ExprWord)
    ensures
        r == spec_expr_word(*w),
{
    ExprWord {
        l0: Box::new(w[0].deep_copy()),
        l1: Box::new(w[1].deep_copy()),
        l2: Box::new(w[2].deep_copy()),
        l3: Box::new(w[3].deep_copy()),
    }
}

/// The word expression an ALU operation computes from its operands.
pub open spec fn word_op_expr(op: WordOp, b: ExprWord, c: ExprWord) -> ZEBRASymbolicExpr {
    match op {
        WordOp::Add => ZEBRASymbolicExpr::WordAddU(b, c),
        WordOp::Sub => ZEBRASymbolicExpr::WordSubU(b, c),
        WordOp::SubU => ZEBRASymbolicExpr::WordSubU(b, c),
        WordOp::Mul => ZEBRASymbolicExpr::WordMul(b, c),
        WordOp::MulH => ZEBRASymbolicExpr::WordMulhs(b, c),
        WordOp::MulHU => ZEBRASymbolicExpr::WordMulhu(b, c),
        WordOp::MulHS => ZEBRASymbolicExpr::WordMulhs(b, c),
        WordOp::MulTL => ZEBRASymbolicExpr::WordMultl(b, c),
        WordOp::MulTH => ZEBRASymbolicExpr::WordMulth(b, c),
        WordOp::MulTUL => ZEBRASymbolicExpr::WordMultul(b, c),
        WordOp::MulTUH => ZEBRASymbolicExpr::WordMultuh(b, c),
        WordOp::And => ZEBRASymbolicExpr::WordAnd(b, c),
        WordOp::Or => ZEBRASymbolicExpr::WordOr(b, c),
        WordOp::Xor => ZEBRASymbolicExpr::WordXOr(b, c),
        WordOp::Lt => ZEBRASymbolicExpr::WordLt(b, c),
        WordOp::SLe => ZEBRASymbolicExpr::WordSLe(b, c),
        WordOp::SLt => ZEBRASymbolicExpr::WordSLt(b, c),
        WordOp::SRL => ZEBRASymbolicExpr::WordSrl(b, c),
        WordOp::Eq => ZEBRASymbolicExpr::WordEq(b, c),
        WordOp::NEq => ZEBRASymbolicExpr::WordNEq(b, c),
        WordOp::Div => ZEBRASymbolicExpr::WordDiv(b, c),
        WordOp::SDiv => ZEBRASymbolicExpr::WordSDiv(b, c),
    }
}

/// The constraint `result - op(b, c)` of an ALU row: the result is the word
/// `hi` for the high halves of the full products, the word `a` otherwise.
pub open spec fn spec_get_alu_constraint(
    a: [ZEBRASymbolicExpr; 4],
    b: [ZEBRASymbolicExpr; 4],
    c: [ZEBRASymbolicExpr; 4],
    hi: [ZEBRASymbolicExpr; 4],
    op: WordOp,
) -> ZEBRASymbolicExpr {
    let result = match op {
        WordOp::MulTH | WordOp::MulTUH => spec_reconstruct_symbolic_word(hi@, 0),
        _ => spec_reconstruct_symbolic_word(a@, 0),
    };
    ZEBRASymbolicExpr::Sub(Box::new(result), Box::new(word_op_expr(op, spec_expr_word(b), spec_expr_word(c))))
}

/// Builds the constraint that ties the result limbs of an ALU row to the
/// word operation on its operand limbs.
pub fn get_alu_constraint(
    a: &[ZEBRASymbolicExpr; 4],
    b: &[ZEBRASymbolicExpr; 4],
    c: &[ZEBRASymbolicExpr; 4],
    hi: &[ZEBRASymbolicExpr; 4],
    op: &WordOp,
) -> (r: ZEBRASymbolicExpr)
    ensures
        r == spec_get_alu_constraint(*a, *b, *c, *hi, *op),
{
    let result = match op {
        WordOp::MulTH | WordOp::MulTUH => reconstruct_symbolic_word(hi, 0),
        _ => reconstruct_symbolic_word(a, 0),
    };
    let bw = expr_word(b);
    let cw = expr_word(c);
    let rhs = match op {
        WordOp::Add => ZEBRASymbolicExpr::WordAddU(bw, cw),
        WordOp::Sub => ZEBRASymbolicExpr::WordSubU(bw, cw),
        WordOp::SubU => ZEBRASymbolicExpr::WordSubU(bw, cw),
        WordOp::Mul => ZEBRASymbolicExpr::WordMul(bw, cw),
        WordOp::MulH => ZEBRASymbolicExpr::WordMulhs(bw, cw),
        WordOp::MulHU => ZEBRASymbolicExpr::WordMulhu(bw, cw),
        WordOp::MulHS => ZEBRASymbolicExpr::WordMulhs(bw, cw),
        WordOp::MulTL => ZEBRASymbolicExpr::WordMultl(bw, cw),
        WordOp::MulTH => ZEBRASymbolicExpr::WordMulth(bw, cw),
        WordOp::MulTUL => ZEBRASymbolicExpr::WordMultul(bw, cw),
        WordOp::MulTUH => ZEBRASymbolicExpr::WordMultuh(bw, cw),
        WordOp::And => ZEBRASymbolicExpr::WordAnd(bw, cw),
        WordOp::Or => ZEBRASymbolicExpr::WordOr(bw, cw),
        WordOp::Xor => ZEBRASymbolicExpr::WordXOr(bw, cw),
        WordOp::Lt => ZEBRASymbolicExpr::WordLt(bw, cw),
        WordOp::SLe => ZEBRASymbolicExpr::WordSLe(bw, cw),
        WordOp::SLt => ZEBRASymbolicExpr::WordSLt(bw, cw),
        WordOp::SRL => ZEBRASymbolicExpr::WordSrl(bw, cw),
        WordOp::Eq => ZEBRASymbolicExpr::WordEq(bw, cw),
        WordOp::NEq => ZEBRASymbolicExpr::WordNEq(bw, cw),
        WordOp::Div => ZEBRASymbolicExpr::WordDiv(bw, cw),
        WordOp::SDiv => ZEBRASymbolicExpr::WordSDiv(bw, cw),
    };
    ZEBRASymbolicExpr::Sub(Box::new(result), Box::new(rhs))
}

} // verus!
