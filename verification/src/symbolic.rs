use vstd::prelude::*;

use crate::interval::{msb_maybe, spec_msb_maybe, AbstractInterval, MayBeFlag};
use crate::wordop::{
    spec_word_addu, spec_word_and, spec_word_div, spec_word_eq, spec_word_ltu, spec_word_mul,
    spec_word_mulhs, spec_word_mulhu, spec_word_mult, spec_word_multu, spec_word_neq, spec_word_or,
    spec_word_sdiv, spec_word_sle, spec_word_slt, spec_word_srl, spec_word_subu, spec_word_to_unsigned,
    spec_word_xor, word_addu, word_and, word_div, word_div_ok, word_eq, word_ltu, word_mul,
    word_mul_ok, word_mulhs, word_mulhu, word_mult, word_multu, word_neq, word_ok, word_or,
    word_sdiv, word_sdiv_ok, word_signed_mul_ok, word_signed_ok, word_sle, word_slt, word_srl,
    word_srl_ok, word_subu, word_xor, Word,
};

verus! {

/// The trace segment and row a symbolic value refers to: the current row
/// (`is_curr`) or the next one, or a public input.
#[derive(Clone, Copy, PartialEq, Eq, Hash, Debug, Structural)]
pub enum ZEBRASymbolicEntry {
    Main { is_curr: bool },
    Permutation { is_curr: bool },
    Preprocessed { is_curr: bool },
    Public,
}

/// A column of a trace segment: `entry[index]`.
#[derive(Clone, Copy, PartialEq, Eq, Hash, Debug, Structural)]
pub struct ZEBRASymbolicVal {
    pub entry: ZEBRASymbolicEntry,
    pub index: usize,
}

/// The four limb expressions of a 32-bit word, least significant first.
#[derive(Debug, PartialEq, Eq, Hash)]
pub struct ExprWord {
    pub l0: Box<ZEBRASymbolicExpr>,
    pub l1: Box<ZEBRASymbolicExpr>,
    pub l2: Box<ZEBRASymbolicExpr>,
    pub l3: Box<ZEBRASymbolicExpr>,
}

/// Symbolic constraint expressions over the rows of a trace.
#[derive(Debug, PartialEq, Eq, Hash)]
pub enum ZEBRASymbolicExpr {
    IsFirstRow,
    IsTransition,
    IsLastRow,
    WhenNonZero(Box<ZEBRASymbolicExpr>, Box<ZEBRASymbolicExpr>),
    WhenZero(Box<ZEBRASymbolicExpr>, Box<ZEBRASymbolicExpr>),
    Constant(AbstractInterval),
    Variable(ZEBRASymbolicVal),
    Add(Box<ZEBRASymbolicExpr>, Box<ZEBRASymbolicExpr>),
    Sub(Box<ZEBRASymbolicExpr>, Box<ZEBRASymbolicExpr>),
    Mul(Box<ZEBRASymbolicExpr>, Box<ZEBRASymbolicExpr>),
    MulLo(Box<ZEBRASymbolicExpr>, Box<ZEBRASymbolicExpr>),
    MulHiSS(Box<ZEBRASymbolicExpr>, Box<ZEBRASymbolicExpr>),
    MulHiUU(Box<ZEBRASymbolicExpr>, Box<ZEBRASymbolicExpr>),
    And(Box<ZEBRASymbolicExpr>, Box<ZEBRASymbolicExpr>),
    Or(Box<ZEBRASymbolicExpr>, Box<ZEBRASymbolicExpr>),
    Xor(Box<ZEBRASymbolicExpr>, Box<ZEBRASymbolicExpr>),
    SRL(Box<ZEBRASymbolicExpr>, Box<ZEBRASymbolicExpr>),
    SRLCarry(Box<ZEBRASymbolicExpr>, Box<ZEBRASymbolicExpr>),
    Lt(Box<ZEBRASymbolicExpr>, Box<ZEBRASymbolicExpr>),
    Msb(Box<ZEBRASymbolicExpr>),
    Neg(Box<ZEBRASymbolicExpr>),
    Flip(Box<ZEBRASymbolicExpr>),
    KoalaBearRange(Box<ZEBRASymbolicExpr>),
    BabyBearRange(Box<ZEBRASymbolicExpr>),
    WordAddU(ExprWord, ExprWord),
    WordSubU(ExprWord, ExprWord),
    WordMul(ExprWord, ExprWord),
    WordMulhu(ExprWord, ExprWord),
    WordMulhs(ExprWord, ExprWord),
    WordMultl(ExprWord, ExprWord),
    WordMulth(ExprWord, ExprWord),
    WordMultul(ExprWord, ExprWord),
    WordMultuh(ExprWord, ExprWord),
    WordDiv(ExprWord, ExprWord),
    WordSDiv(ExprWord, ExprWord),
    WordLt(ExprWord, ExprWord),
    WordSLe(ExprWord, ExprWord),
    WordSLt(ExprWord, ExprWord),
    WordAnd(ExprWord, ExprWord),
    WordOr(ExprWord, ExprWord),
    WordXOr(ExprWord, ExprWord),
    WordEq(ExprWord, ExprWord),
    WordNEq(ExprWord, ExprWord),
    WordSrl(ExprWord, ExprWord),
}

/// The KoalaBear prime `2^31 - 2^24 + 1`.
pub const KOALABEAR_PRIME: i128 = 2130706433;

/// The BabyBear prime `2^31 - 2^27 + 1`.
pub const BABYBEAR_PRIME: i128 = 2013265921;

/// `2^32`, the modulus of the low-word product.
pub const LOW_WORD_MODULUS: i128 = 4294967296;

/// `2^32`, the divisor that gives the high 32 bits of a product.
pub const HIGH_WORD_DIVISOR: i128 = 4294967296;

/// What an expression is evaluated against: the current row, the next row
/// and the public values when present, the row's position, and the prime.
pub struct EvalEnv {
    pub curr: Seq<AbstractInterval>,
    pub next: Option<Seq<AbstractInterval>>,
    pub public: Option<Seq<AbstractInterval>>,
    pub is_first_row: bool,
    pub is_transition: bool,
    pub is_last_row: bool,
    pub prime: u32,
}

pub open spec fn opt_slice_view(s: Option<&[AbstractInterval]>) -> Option<Seq<AbstractInterval>> {
    match s {
        Some(x) => Some(x@),
        None => None,
    }
}

pub open spec fn make_env(
    curr_row: Seq<AbstractInterval>,
    next_row: Option<&[AbstractInterval]>,
    public_vals: Option<&[AbstractInterval]>,
    is_first_row: bool,
    is_transition: bool,
    is_last_row: bool,
    prime: u32,
) -> EvalEnv {
    EvalEnv {
        curr: curr_row,
        next: opt_slice_view(next_row),
        public: opt_slice_view(public_vals),
        is_first_row,
        is_transition,
        is_last_row,
        prime,
    }
}

pub open spec fn zero_iv() -> AbstractInterval {
    AbstractInterval { lo: 0, hi: 0 }
}

pub open spec fn one_iv() -> AbstractInterval {
    AbstractInterval { lo: 1, hi: 1 }
}

pub open spec fn bool_iv() -> AbstractInterval {
    AbstractInterval { lo: 0, hi: 1 }
}

pub open spec fn flag_iv(b: bool) -> AbstractInterval {
    if b {
        one_iv()
    } else {
        zero_iv()
    }
}

/// A conditional body under a condition: a body that is surely non-zero
/// while the condition may or may not hold widens to reach zero.
pub open spec fn spec_guarded(cond_zero: MayBeFlag, val: AbstractInterval, p: u32) -> AbstractInterval {
    match val.spec_is_zero(p as int) {
        MayBeFlag::True => val,
        MayBeFlag::False => {
            if cond_zero == MayBeFlag::MayBe {
                if 0 < val.lo {
                    AbstractInterval { lo: 0, hi: val.hi }
                } else {
                    AbstractInterval { lo: val.lo, hi: 0 }
                }
            } else {
                val
            }
        },
        MayBeFlag::MayBe => val,
    }
}

pub open spec fn flip_ok(v: AbstractInterval, p: u32) -> bool {
    v.spec_is_zero(p as int) != MayBeFlag::True ==> one_iv().sub_ok(v)
}

/// Boolean complement of a flag: `1` when it is surely zero, `0` when it is
/// surely one, `{0, 1}` otherwise.
pub open spec fn spec_flip(v: AbstractInterval, p: u32) -> AbstractInterval {
    if v.spec_is_zero(p as int) == MayBeFlag::True {
        one_iv()
    } else if one_iv().spec_sub(v).spec_is_zero(p as int) == MayBeFlag::True {
        zero_iv()
    } else {
        bool_iv()
    }
}

/// The row cell a variable reads (a next-row cell reads as zero without a next row).
pub open spec fn variable_value(cell: ZEBRASymbolicVal, env: EvalEnv) -> AbstractInterval {
    match cell.entry {
        ZEBRASymbolicEntry::Public => match env.public {
            Some(pv) => pv[cell.index as int],
            None => zero_iv(),
        },
        ZEBRASymbolicEntry::Main { is_curr }
        | ZEBRASymbolicEntry::Preprocessed { is_curr }
        | ZEBRASymbolicEntry::Permutation { is_curr } => if is_curr {
            env.curr[cell.index as int]
        } else {
            match env.next {
                Some(nr) => nr[cell.index as int],
                None => zero_iv(),
            }
        },
    }
}

/// The row cell a variable reads exists.
pub open spec fn variable_ok(cell: ZEBRASymbolicVal, env: EvalEnv) -> bool {
    match cell.entry {
        ZEBRASymbolicEntry::Public => match env.public {
            Some(pv) => cell.index < pv.len(),
            None => false,
        },
        ZEBRASymbolicEntry::Main { is_curr }
        | ZEBRASymbolicEntry::Preprocessed { is_curr }
        | ZEBRASymbolicEntry::Permutation { is_curr } => if is_curr {
            cell.index < env.curr.len()
        } else {
            match env.next {
                Some(nr) => cell.index < nr.len(),
                None => true,
            }
        },
    }
}

/// The word operations an expression can apply to two words.
pub enum WordKind {
    AddU,
    SubU,
    Mul,
    Mulhu,
    Mulhs,
    Multl,
    Multh,
    Multul,
    Multuh,
    Div,
    SDiv,
    Lt,
    SLe,
    SLt,
    And,
    Or,
    XOr,
    Eq,
    NEq,
    Srl,
}

pub open spec fn word_kind_ok(kind: WordKind, b: Word, c: Word) -> bool {
    match kind {
        WordKind::AddU | WordKind::SubU | WordKind::Lt | WordKind::And | WordKind::Eq
        | WordKind::NEq => word_ok(b) && word_ok(c),
        WordKind::Mul | WordKind::Mulhu | WordKind::Multul | WordKind::Multuh => word_mul_ok(b, c),
        WordKind::Mulhs | WordKind::Multl | WordKind::Multh => word_signed_mul_ok(b, c),
        WordKind::Div => word_div_ok(b, c),
        WordKind::SDiv => word_sdiv_ok(b, c),
        WordKind::SLe | WordKind::SLt => word_signed_ok(b, c),
        WordKind::Or | WordKind::XOr => word_ok(b) && word_ok(c) && (spec_word_to_unsigned(b).lo
            == spec_word_to_unsigned(b).hi && spec_word_to_unsigned(c).lo
            == spec_word_to_unsigned(c).hi || spec_word_to_unsigned(b).hi
            | spec_word_to_unsigned(c).hi >= 0),
        WordKind::Srl => word_srl_ok(b, c),
    }
}

pub open spec fn spec_word_kind(kind: WordKind, b: Word, c: Word) -> AbstractInterval {
    match kind {
        WordKind::AddU => spec_word_addu(b, c),
        WordKind::SubU => spec_word_subu(b, c),
        WordKind::Mul => spec_word_mul(b, c),
        WordKind::Mulhu => spec_word_mulhu(b, c),
        WordKind::Mulhs => spec_word_mulhs(b, c),
        WordKind::Multl => spec_word_mult(b, c).0,
        WordKind::Multh => spec_word_mult(b, c).1,
        WordKind::Multul => spec_word_multu(b, c).0,
        WordKind::Multuh => spec_word_multu(b, c).1,
        WordKind::Div => spec_word_div(b, c),
        WordKind::SDiv => spec_word_sdiv(b, c),
        WordKind::Lt => spec_word_ltu(b, c),
        WordKind::SLe => spec_word_sle(b, c),
        WordKind::SLt => spec_word_slt(b, c),
        WordKind::And => spec_word_and(b, c),
        WordKind::Or => spec_word_or(b, c),
        WordKind::XOr => spec_word_xor(b, c),
        WordKind::Eq => spec_word_eq(b, c),
        WordKind::NEq => spec_word_neq(b, c),
        WordKind::Srl => spec_word_srl(b, c),
    }
}

/// Applies a word operation to two evaluated words.
pub fn apply_word_kind(kind: WordKind, b: &Word, c: &Word) -> (r: AbstractInterval)
    requires
        word_kind_ok(kind, *b, *c),
    ensures
        r == spec_word_kind(kind, *b, *c),
{
    match kind {
        WordKind::AddU => word_addu(b, c),
        WordKind::SubU => word_subu(b, c),
        WordKind::Mul => word_mul(b, c),
        WordKind::Mulhu => word_mulhu(b, c),
        WordKind::Mulhs => word_mulhs(b, c),
        WordKind::Multl => word_mult(b, c).0,
        WordKind::Multh => word_mult(b, c).1,
        WordKind::Multul => word_multu(b, c).0,
        WordKind::Multuh => word_multu(b, c).1,
        WordKind::Div => word_div(b, c),
        WordKind::SDiv => word_sdiv(b, c),
        WordKind::Lt => word_ltu(b, c),
        WordKind::SLe => word_sle(b, c),
        WordKind::SLt => word_slt(b, c),
        WordKind::And => word_and(b, c),
        WordKind::Or => word_or(b, c),
        WordKind::XOr => word_xor(b, c),
        WordKind::Eq => word_eq(b, c),
        WordKind::NEq => word_neq(b, c),
        WordKind::Srl => word_srl(b, c),
    }
}

/// Boolean complement of a flag, as `Flip` evaluates it.
pub fn flip_of(v: AbstractInterval, prime: u32) -> (r: AbstractInterval)
    requires
        prime > 0,
        flip_ok(v, prime),
    ensures
        r == spec_flip(v, prime),
{
    if v.is_zero(prime) == MayBeFlag::True {
        AbstractInterval::one()
    } else {
        let t = AbstractInterval::one().minus(v);
        if t.is_zero(prime) == MayBeFlag::True {
            AbstractInterval::zero()
        } else {
            AbstractInterval::bool()
        }
    }
}

/// A conditional body given the condition's zero test, as `WhenZero` and
/// `WhenNonZero` evaluate it.
pub fn guarded(cond_zero: MayBeFlag, val: AbstractInterval, prime: u32) -> (r: AbstractInterval)
    requires
        prime > 0,
    ensures
        r == spec_guarded(cond_zero, val, prime),
{
    match val.is_zero(prime) {
        MayBeFlag::True => val,
        MayBeFlag::False => {
            if cond_zero == MayBeFlag::MayBe {
                if 0 < val.lo {
                    AbstractInterval { lo: 0, hi: val.hi }
                } else {
                    AbstractInterval { lo: val.lo, hi: 0 }
                }
            } else {
                val
            }
        },
        MayBeFlag::MayBe => val,
    }
}

impl ZEBRASymbolicExpr {
    pub open spec fn word_value(w: ExprWord, env: EvalEnv) -> Word
        decreases w, 0nat,
    {
        [w.l0.value_of(env), w.l1.value_of(env), w.l2.value_of(env), w.l3.value_of(env)]
    }

    pub open spec fn word_evaluable(w: ExprWord, env: EvalEnv) -> bool
        decreases w, 0nat,
    {
        w.l0.evaluable(env) && w.l1.evaluable(env) && w.l2.evaluable(env) && w.l3.evaluable(env)
    }

    /// Which evaluation step handles the variant: the leaves, the row
    /// predicates and the field operators (0), the interval operators (1),
    /// the word operators (2).
    pub open spec fn eval_group(self) -> int {
        match self {
            ZEBRASymbolicExpr::IsFirstRow | ZEBRASymbolicExpr::IsTransition
            | ZEBRASymbolicExpr::IsLastRow | ZEBRASymbolicExpr::WhenNonZero(..)
            | ZEBRASymbolicExpr::WhenZero(..) | ZEBRASymbolicExpr::Constant(..)
            | ZEBRASymbolicExpr::Variable(..) | ZEBRASymbolicExpr::Add(..)
            | ZEBRASymbolicExpr::Sub(..) | ZEBRASymbolicExpr::Mul(..) => 0,
            ZEBRASymbolicExpr::MulLo(..) | ZEBRASymbolicExpr::MulHiSS(..)
            | ZEBRASymbolicExpr::MulHiUU(..) | ZEBRASymbolicExpr::And(..)
            | ZEBRASymbolicExpr::Or(..) | ZEBRASymbolicExpr::Xor(..)
            | ZEBRASymbolicExpr::SRL(..) | ZEBRASymbolicExpr::SRLCarry(..)
            | ZEBRASymbolicExpr::Lt(..) | ZEBRASymbolicExpr::Msb(..)
            | ZEBRASymbolicExpr::Neg(..) | ZEBRASymbolicExpr::Flip(..)
            | ZEBRASymbolicExpr::KoalaBearRange(..) | ZEBRASymbolicExpr::BabyBearRange(..) => 1,
            _ => 2,
        }
    }


    /// The abstract value of the expression on a row.
    pub open spec fn value_of(self, env: EvalEnv) -> AbstractInterval
        decreases self, 1nat,
    {
        let p = env.prime;
        match self {
            ZEBRASymbolicExpr::IsFirstRow => flag_iv(env.is_first_row),
            ZEBRASymbolicExpr::IsTransition => flag_iv(env.is_transition),
            ZEBRASymbolicExpr::IsLastRow => flag_iv(env.is_last_row),
            ZEBRASymbolicExpr::WhenNonZero(a, b) => {
                let cz = a.value_of(env).spec_is_zero(p as int);
                if cz == MayBeFlag::True {
                    zero_iv()
                } else {
                    spec_guarded(cz, b.value_of(env), p)
                }
            },
            ZEBRASymbolicExpr::WhenZero(a, b) => {
                let cz = a.value_of(env).spec_is_zero(p as int);
                if cz == MayBeFlag::False {
                    zero_iv()
                } else {
                    spec_guarded(cz, b.value_of(env), p)
                }
            },
            ZEBRASymbolicExpr::Constant(c) => c,
            ZEBRASymbolicExpr::Variable(cell) => variable_value(cell, env),
            ZEBRASymbolicExpr::Add(a, b) => a.value_of(env).spec_add(b.value_of(env)),
            ZEBRASymbolicExpr::Sub(a, b) => a.value_of(env).spec_sub(b.value_of(env)),
            ZEBRASymbolicExpr::Mul(a, b) => {
                if a.value_of(env).spec_is_zero(p as int) == MayBeFlag::True {
                    zero_iv()
                } else {
                    a.value_of(env).spec_mul(b.value_of(env))
                }
            },
            ZEBRASymbolicExpr::MulLo(a, b) => a.value_of(env).spec_mul(b.value_of(env)).spec_modulo(
                LOW_WORD_MODULUS as int,
            ),
            ZEBRASymbolicExpr::MulHiSS(a, b) => a.value_of(env).spec_to_signed(32).spec_mul(
                b.value_of(env).spec_to_signed(32),
            ).spec_div_floor(HIGH_WORD_DIVISOR as int),
            ZEBRASymbolicExpr::MulHiUU(a, b) => a.value_of(env).spec_mul(
                b.value_of(env),
            ).spec_div_floor(HIGH_WORD_DIVISOR as int),
            ZEBRASymbolicExpr::And(a, b) => a.value_of(env).spec_bitand(b.value_of(env)),
            ZEBRASymbolicExpr::Or(a, b) => a.value_of(env).spec_bitor(b.value_of(env)),
            ZEBRASymbolicExpr::Xor(a, b) => a.value_of(env).spec_bitxor(b.value_of(env)),
            ZEBRASymbolicExpr::SRL(a, b) => a.value_of(env).spec_shr(b.value_of(env)),
            ZEBRASymbolicExpr::SRLCarry(a, b) => a.value_of(env).spec_shr_carry(b.value_of(env)).1,
            ZEBRASymbolicExpr::Lt(a, b) => a.value_of(env).spec_ltu(b.value_of(env)),
            ZEBRASymbolicExpr::Msb(a) => spec_msb_maybe(a.value_of(env)),
            ZEBRASymbolicExpr::Neg(a) => a.value_of(env).spec_neg(),
            ZEBRASymbolicExpr::Flip(a) => spec_flip(a.value_of(env), p),
            ZEBRASymbolicExpr::KoalaBearRange(a) => spec_flip(
                a.value_of(env).spec_ltu(
                    AbstractInterval { lo: KOALABEAR_PRIME, hi: KOALABEAR_PRIME },
                ),
                p,
            ),
            ZEBRASymbolicExpr::BabyBearRange(a) => spec_flip(
                a.value_of(env).spec_ltu(
                    AbstractInterval { lo: BABYBEAR_PRIME, hi: BABYBEAR_PRIME },
                ),
                p,
            ),
            ZEBRASymbolicExpr::WordAddU(b, c) => spec_word_kind(
                WordKind::AddU,
                Self::word_value(b, env),
                Self::word_value(c, env),
            ),
            ZEBRASymbolicExpr::WordSubU(b, c) => spec_word_kind(
                WordKind::SubU,
                Self::word_value(b, env),
                Self::word_value(c, env),
            ),
            ZEBRASymbolicExpr::WordMul(b, c) => spec_word_kind(
                WordKind::Mul,
                Self::word_value(b, env),
                Self::word_value(c, env),
            ),
            ZEBRASymbolicExpr::WordMulhu(b, c) => spec_word_kind(
                WordKind::Mulhu,
                Self::word_value(b, env),
                Self::word_value(c, env),
            ),
            ZEBRASymbolicExpr::WordMulhs(b, c) => spec_word_kind(
                WordKind::Mulhs,
                Self::word_value(b, env),
                Self::word_value(c, env),
            ),
            ZEBRASymbolicExpr::WordMultl(b, c) => spec_word_kind(
                WordKind::Multl,
                Self::word_value(b, env),
                Self::word_value(c, env),
            ),
            ZEBRASymbolicExpr::WordMulth(b, c) => spec_word_kind(
                WordKind::Multh,
                Self::word_value(b, env),
                Self::word_value(c, env),
            ),
            ZEBRASymbolicExpr::WordMultul(b, c) => spec_word_kind(
                WordKind::Multul,
                Self::word_value(b, env),
                Self::word_value(c, env),
            ),
            ZEBRASymbolicExpr::WordMultuh(b, c) => spec_word_kind(
                WordKind::Multuh,
                Self::word_value(b, env),
                Self::word_value(c, env),
            ),
            ZEBRASymbolicExpr::WordDiv(b, c) => spec_word_kind(
                WordKind::Div,
                Self::word_value(b, env),
                Self::word_value(c, env),
            ),
            ZEBRASymbolicExpr::WordSDiv(b, c) => spec_word_kind(
                WordKind::SDiv,
                Self::word_value(b, env),
                Self::word_value(c, env),
            ),
            ZEBRASymbolicExpr::WordLt(b, c) => spec_word_kind(
                WordKind::Lt,
                Self::word_value(b, env),
                Self::word_value(c, env),
            ),
            ZEBRASymbolicExpr::WordSLe(b, c) => spec_word_kind(
                WordKind::SLe,
                Self::word_value(b, env),
                Self::word_value(c, env),
            ),
            ZEBRASymbolicExpr::WordSLt(b, c) => spec_word_kind(
                WordKind::SLt,
                Self::word_value(b, env),
                Self::word_value(c, env),
            ),
            ZEBRASymbolicExpr::WordAnd(b, c) => spec_word_kind(
                WordKind::And,
                Self::word_value(b, env),
                Self::word_value(c, env),
            ),
            ZEBRASymbolicExpr::WordOr(b, c) => spec_word_kind(
                WordKind::Or,
                Self::word_value(b, env),
                Self::word_value(c, env),
            ),
            ZEBRASymbolicExpr::WordXOr(b, c) => spec_word_kind(
                WordKind::XOr,
                Self::word_value(b, env),
                Self::word_value(c, env),
            ),
            ZEBRASymbolicExpr::WordEq(b, c) => spec_word_kind(
                WordKind::Eq,
                Self::word_value(b, env),
                Self::word_value(c, env),
            ),
            ZEBRASymbolicExpr::WordNEq(b, c) => spec_word_kind(
                WordKind::NEq,
                Self::word_value(b, env),
                Self::word_value(c, env),
            ),
            ZEBRASymbolicExpr::WordSrl(b, c) => spec_word_kind(
                WordKind::Srl,
                Self::word_value(b, env),
                Self::word_value(c, env),
            ),
        }
    }

    /// Evaluation reads only existing cells, has a public row where it reads
    /// one, keeps every computation within `i128`, and applies the bitwise and
    /// shift operators only where they are defined.
    pub open spec fn evaluable(self, env: EvalEnv) -> bool
        decreases self, 1nat,
    {
        let p = env.prime;
        match self {
            ZEBRASymbolicExpr::IsFirstRow | ZEBRASymbolicExpr::IsTransition
            | ZEBRASymbolicExpr::IsLastRow | ZEBRASymbolicExpr::Constant(_) => true,
            ZEBRASymbolicExpr::WhenNonZero(a, b) => {
                &&& a.evaluable(env)
                &&& a.value_of(env).spec_is_zero(p as int) != MayBeFlag::True ==> b.evaluable(env)
            },
            ZEBRASymbolicExpr::WhenZero(a, b) => {
                &&& a.evaluable(env)
                &&& a.value_of(env).spec_is_zero(p as int) != MayBeFlag::False ==> b.evaluable(env)
            },
            ZEBRASymbolicExpr::Variable(cell) => variable_ok(cell, env),
            ZEBRASymbolicExpr::Add(a, b) => a.evaluable(env) && b.evaluable(env) && a.value_of(
                env,
            ).add_ok(b.value_of(env)),
            ZEBRASymbolicExpr::Sub(a, b) => a.evaluable(env) && b.evaluable(env) && a.value_of(
                env,
            ).sub_ok(b.value_of(env)),
            ZEBRASymbolicExpr::Mul(a, b) => {
                &&& a.evaluable(env)
                &&& a.value_of(env).spec_is_zero(p as int) != MayBeFlag::True ==> b.evaluable(env)
                    && a.value_of(env).mul_ok(b.value_of(env))
            },
            ZEBRASymbolicExpr::MulLo(a, b) | ZEBRASymbolicExpr::MulHiUU(a, b) => a.evaluable(env)
                && b.evaluable(env) && a.value_of(env).mul_ok(b.value_of(env)),
            ZEBRASymbolicExpr::MulHiSS(a, b) => {
                &&& a.evaluable(env)
                &&& b.evaluable(env)
                &&& a.value_of(env).to_signed_ok(32)
                &&& b.value_of(env).to_signed_ok(32)
                &&& a.value_of(env).spec_to_signed(32).mul_ok(b.value_of(env).spec_to_signed(32))
            },
            ZEBRASymbolicExpr::And(a, b) | ZEBRASymbolicExpr::Or(a, b) | ZEBRASymbolicExpr::Xor(
                a,
                b,
            ) => a.evaluable(env) && b.evaluable(env) && a.value_of(env).lo >= 0 && b.value_of(
                env,
            ).lo >= 0,
            ZEBRASymbolicExpr::SRL(a, b) | ZEBRASymbolicExpr::SRLCarry(a, b) => a.evaluable(env)
                && b.evaluable(env) && a.value_of(env).shl_ok(b.value_of(env)),
            ZEBRASymbolicExpr::Lt(a, b) => a.evaluable(env) && b.evaluable(env),
            ZEBRASymbolicExpr::Msb(a) => a.evaluable(env),
            ZEBRASymbolicExpr::Neg(a) => a.evaluable(env) && a.value_of(env).neg_ok(),
            ZEBRASymbolicExpr::Flip(a) => a.evaluable(env) && flip_ok(a.value_of(env), p),
            ZEBRASymbolicExpr::KoalaBearRange(a) => a.evaluable(env) && flip_ok(
                a.value_of(env).spec_ltu(
                    AbstractInterval { lo: KOALABEAR_PRIME, hi: KOALABEAR_PRIME },
                ),
                p,
            ),
            ZEBRASymbolicExpr::BabyBearRange(a) => a.evaluable(env) && flip_ok(
                a.value_of(env).spec_ltu(
                    AbstractInterval { lo: BABYBEAR_PRIME, hi: BABYBEAR_PRIME },
                ),
                p,
            ),
            ZEBRASymbolicExpr::WordAddU(b, c) => Self::word_evaluable(b, env)
                && Self::word_evaluable(c, env) && word_kind_ok(
                WordKind::AddU,
                Self::word_value(b, env),
                Self::word_value(c, env),
            ),
            ZEBRASymbolicExpr::WordSubU(b, c) => Self::word_evaluable(b, env)
                && Self::word_evaluable(c, env) && word_kind_ok(
                WordKind::SubU,
                Self::word_value(b, env),
                Self::word_value(c, env),
            ),
            ZEBRASymbolicExpr::WordMul(b, c) => Self::word_evaluable(b, env)
                && Self::word_evaluable(c, env) && word_kind_ok(
                WordKind::Mul,
                Self::word_value(b, env),
                Self::word_value(c, env),
            ),
            ZEBRASymbolicExpr::WordMulhu(b, c) => Self::word_evaluable(b, env)
                && Self::word_evaluable(c, env) && word_kind_ok(
                WordKind::Mulhu,
                Self::word_value(b, env),
                Self::word_value(c, env),
            ),
            ZEBRASymbolicExpr::WordMulhs(b, c) => Self::word_evaluable(b, env)
                && Self::word_evaluable(c, env) && word_kind_ok(
                WordKind::Mulhs,
                Self::word_value(b, env),
                Self::word_value(c, env),
            ),
            ZEBRASymbolicExpr::WordMultl(b, c) => Self::word_evaluable(b, env)
                && Self::word_evaluable(c, env) && word_kind_ok(
                WordKind::Multl,
                Self::word_value(b, env),
                Self::word_value(c, env),
            ),
            ZEBRASymbolicExpr::WordMulth(b, c) => Self::word_evaluable(b, env)
                && Self::word_evaluable(c, env) && word_kind_ok(
                WordKind::Multh,
                Self::word_value(b, env),
                Self::word_value(c, env),
            ),
            ZEBRASymbolicExpr::WordMultul(b, c) => Self::word_evaluable(b, env)
                && Self::word_evaluable(c, env) && word_kind_ok(
                WordKind::Multul,
                Self::word_value(b, env),
                Self::word_value(c, env),
            ),
            ZEBRASymbolicExpr::WordMultuh(b, c) => Self::word_evaluable(b, env)
                && Self::word_evaluable(c, env) && word_kind_ok(
                WordKind::Multuh,
                Self::word_value(b, env),
                Self::word_value(c, env),
            ),
            ZEBRASymbolicExpr::WordDiv(b, c) => Self::word_evaluable(b, env)
                && Self::word_evaluable(c, env) && word_kind_ok(
                WordKind::Div,
                Self::word_value(b, env),
                Self::word_value(c, env),
            ),
            ZEBRASymbolicExpr::WordSDiv(b, c) => Self::word_evaluable(b, env)
                && Self::word_evaluable(c, env) && word_kind_ok(
                WordKind::SDiv,
                Self::word_value(b, env),
                Self::word_value(c, env),
            ),
            ZEBRASymbolicExpr::WordLt(b, c) => Self::word_evaluable(b, env)
                && Self::word_evaluable(c, env) && word_kind_ok(
                WordKind::Lt,
                Self::word_value(b, env),
                Self::word_value(c, env),
            ),
            ZEBRASymbolicExpr::WordSLe(b, c) => Self::word_evaluable(b, env)
                && Self::word_evaluable(c, env) && word_kind_ok(
                WordKind::SLe,
                Self::word_value(b, env),
                Self::word_value(c, env),
            ),
            ZEBRASymbolicExpr::WordSLt(b, c) => Self::word_evaluable(b, env)
                && Self::word_evaluable(c, env) && word_kind_ok(
                WordKind::SLt,
                Self::word_value(b, env),
                Self::word_value(c, env),
            ),
            ZEBRASymbolicExpr::WordAnd(b, c) => Self::word_evaluable(b, env)
                && Self::word_evaluable(c, env) && word_kind_ok(
                WordKind::And,
                Self::word_value(b, env),
                Self::word_value(c, env),
            ),
            ZEBRASymbolicExpr::WordOr(b, c) => Self::word_evaluable(b, env)
                && Self::word_evaluable(c, env) && word_kind_ok(
                WordKind::Or,
                Self::word_value(b, env),
                Self::word_value(c, env),
            ),
            ZEBRASymbolicExpr::WordXOr(b, c) => Self::word_evaluable(b, env)
                && Self::word_evaluable(c, env) && word_kind_ok(
                WordKind::XOr,
                Self::word_value(b, env),
                Self::word_value(c, env),
            ),
            ZEBRASymbolicExpr::WordEq(b, c) => Self::word_evaluable(b, env)
                && Self::word_evaluable(c, env) && word_kind_ok(
                WordKind::Eq,
                Self::word_value(b, env),
                Self::word_value(c, env),
            ),
            ZEBRASymbolicExpr::WordNEq(b, c) => Self::word_evaluable(b, env)
                && Self::word_evaluable(c, env) && word_kind_ok(
                WordKind::NEq,
                Self::word_value(b, env),
                Self::word_value(c, env),
            ),
            ZEBRASymbolicExpr::WordSrl(b, c) => Self::word_evaluable(b, env)
                && Self::word_evaluable(c, env) && word_kind_ok(
                WordKind::Srl,
                Self::word_value(b, env),
                Self::word_value(c, env),
            ),
        }
    }
}

impl ZEBRASymbolicExpr {
    /// Evaluates the four limbs of a word.
    fn eval_word(
        w: &ExprWord,
        curr_row: &[AbstractInterval],
        next_row: Option<&[AbstractInterval]>,
        public_vals: Option<&[AbstractInterval]>,
        is_first_row: bool,
        is_transition: bool,
        is_last_row: bool,
        prime: u32,
    ) -> (r: Word)
        requires
            prime > 0,
            Self::word_evaluable(*w, make_env(curr_row@, next_row, public_vals, is_first_row, is_transition, is_last_row, prime)),
        ensures
            r == Self::word_value(*w, make_env(curr_row@, next_row, public_vals, is_first_row, is_transition, is_last_row, prime)),
        decreases *w, 0nat,
    {
        let a0 = w.l0.eval(curr_row, next_row, public_vals, is_first_row, is_transition, is_last_row, prime);
        let a1 = w.l1.eval(curr_row, next_row, public_vals, is_first_row, is_transition, is_last_row, prime);
        let a2 = w.l2.eval(curr_row, next_row, public_vals, is_first_row, is_transition, is_last_row, prime);
        let a3 = w.l3.eval(curr_row, next_row, public_vals, is_first_row, is_transition, is_last_row, prime);
        [a0, a1, a2, a3]
    }

    /// The abstract value of the expression on a row: the interval that holds
    /// every value the expression can take there.
    pub fn eval(
        &self,
        curr_row: &[AbstractInterval],
        next_row: Option<&[AbstractInterval]>,
        public_vals: Option<&[AbstractInterval]>,
        is_first_row: bool,
        is_transition: bool,
        is_last_row: bool,
        prime: u32,
    ) -> (r: AbstractInterval)
        requires
            prime > 0,
            self.evaluable(make_env(curr_row@, next_row, public_vals, is_first_row, is_transition, is_last_row, prime)),
        ensures
            r == self.value_of(make_env(curr_row@, next_row, public_vals, is_first_row, is_transition, is_last_row, prime)),
        decreases *self, 2nat,
    {
        match self {
            ZEBRASymbolicExpr::IsFirstRow => if is_first_row {
                AbstractInterval::one()
            } else {
                AbstractInterval::zero()
            },
            ZEBRASymbolicExpr::IsTransition => if is_transition {
                AbstractInterval::one()
            } else {
                AbstractInterval::zero()
            },
            ZEBRASymbolicExpr::IsLastRow => if is_last_row {
                AbstractInterval::one()
            } else {
                AbstractInterval::zero()
            },
            ZEBRASymbolicExpr::WhenNonZero(a, b) => {
                let cond = a.eval(curr_row, next_row, public_vals, is_first_row, is_transition, is_last_row, prime);
                let cz = cond.is_zero(prime);
                if cz == MayBeFlag::True {
                    AbstractInterval::zero()
                } else {
                    let val = b.eval(curr_row, next_row, public_vals, is_first_row, is_transition, is_last_row, prime);
                    guarded(cz, val, prime)
                }
            },
            ZEBRASymbolicExpr::WhenZero(a, b) => {
                let cond = a.eval(curr_row, next_row, public_vals, is_first_row, is_transition, is_last_row, prime);
                let cz = cond.is_zero(prime);
                if cz == MayBeFlag::False {
                    AbstractInterval::zero()
                } else {
                    let val = b.eval(curr_row, next_row, public_vals, is_first_row, is_transition, is_last_row, prime);
                    guarded(cz, val, prime)
                }
            },
            ZEBRASymbolicExpr::Constant(c) => *c,
            ZEBRASymbolicExpr::Variable(cell) => {
                let is_curr = match cell.entry {
                    ZEBRASymbolicEntry::Public => {
                        return match public_vals {
                            Some(pv) => pv[cell.index],
                            None => AbstractInterval::zero(),
                        };
                    },
                    ZEBRASymbolicEntry::Main { is_curr } => is_curr,
                    ZEBRASymbolicEntry::Preprocessed { is_curr } => is_curr,
                    ZEBRASymbolicEntry::Permutation { is_curr } => is_curr,
                };
                if is_curr {
                    curr_row[cell.index]
                } else {
                    match next_row {
                        Some(nr) => nr[cell.index],
                        None => AbstractInterval::zero(),
                    }
                }
            },
            ZEBRASymbolicExpr::Mul(a, b) => {
                let x = a.eval(curr_row, next_row, public_vals, is_first_row, is_transition, is_last_row, prime);
                if x.is_zero(prime) == MayBeFlag::True {
                    AbstractInterval::zero()
                } else {
                    let y = b.eval(curr_row, next_row, public_vals, is_first_row, is_transition, is_last_row, prime);
                    x.times(y)
                }
            },
            ZEBRASymbolicExpr::Add(a, b) => {
                let x = a.eval(curr_row, next_row, public_vals, is_first_row, is_transition, is_last_row, prime);
                let y = b.eval(curr_row, next_row, public_vals, is_first_row, is_transition, is_last_row, prime);
                x.plus(y)
            },
            ZEBRASymbolicExpr::Sub(a, b) => {
                let x = a.eval(curr_row, next_row, public_vals, is_first_row, is_transition, is_last_row, prime);
                let y = b.eval(curr_row, next_row, public_vals, is_first_row, is_transition, is_last_row, prime);
                x.minus(y)
            },
            ZEBRASymbolicExpr::MulLo(..) | ZEBRASymbolicExpr::MulHiSS(..)
            | ZEBRASymbolicExpr::MulHiUU(..) | ZEBRASymbolicExpr::And(..)
            | ZEBRASymbolicExpr::Or(..) | ZEBRASymbolicExpr::Xor(..)
            | ZEBRASymbolicExpr::SRL(..) | ZEBRASymbolicExpr::SRLCarry(..)
            | ZEBRASymbolicExpr::Lt(..) | ZEBRASymbolicExpr::Msb(..)
            | ZEBRASymbolicExpr::Neg(..) | ZEBRASymbolicExpr::Flip(..)
            | ZEBRASymbolicExpr::KoalaBearRange(..) | ZEBRASymbolicExpr::BabyBearRange(..) => {
                self.eval_operator(curr_row, next_row, public_vals, is_first_row, is_transition, is_last_row, prime)
            },
            _ => self.eval_word_operator(curr_row, next_row, public_vals, is_first_row, is_transition, is_last_row, prime),
        }
    }

    /// Evaluates the interval operators.
    fn eval_operator(
        &self,
        curr_row: &[AbstractInterval],
        next_row: Option<&[AbstractInterval]>,
        public_vals: Option<&[AbstractInterval]>,
        is_first_row: bool,
        is_transition: bool,
        is_last_row: bool,
        prime: u32,
    ) -> (r: AbstractInterval)
        requires
            prime > 0,
            self.eval_group() == 1,
            self.evaluable(make_env(curr_row@, next_row, public_vals, is_first_row, is_transition, is_last_row, prime)),
        ensures
            r == self.value_of(make_env(curr_row@, next_row, public_vals, is_first_row, is_transition, is_last_row, prime)),
        decreases *self, 1nat,
    {
        match self {
            ZEBRASymbolicExpr::MulLo(a, b) => {
                let x = a.eval(curr_row, next_row, public_vals, is_first_row, is_transition, is_last_row, prime);
                let y = b.eval(curr_row, next_row, public_vals, is_first_row, is_transition, is_last_row, prime);
                x.times(y).modulo(LOW_WORD_MODULUS)
            },
            ZEBRASymbolicExpr::MulHiSS(a, b) => {
                let x = a.eval(curr_row, next_row, public_vals, is_first_row, is_transition, is_last_row, prime);
                let y = b.eval(curr_row, next_row, public_vals, is_first_row, is_transition, is_last_row, prime);
                x.to_signed(32).times(y.to_signed(32)).div_floor(HIGH_WORD_DIVISOR)
            },
            ZEBRASymbolicExpr::MulHiUU(a, b) => {
                let x = a.eval(curr_row, next_row, public_vals, is_first_row, is_transition, is_last_row, prime);
                let y = b.eval(curr_row, next_row, public_vals, is_first_row, is_transition, is_last_row, prime);
                x.times(y).div_floor(HIGH_WORD_DIVISOR)
            },
            ZEBRASymbolicExpr::And(a, b) => {
                let x = a.eval(curr_row, next_row, public_vals, is_first_row, is_transition, is_last_row, prime);
                let y = b.eval(curr_row, next_row, public_vals, is_first_row, is_transition, is_last_row, prime);
                x.bit_and(y)
            },
            ZEBRASymbolicExpr::Or(a, b) => {
                let x = a.eval(curr_row, next_row, public_vals, is_first_row, is_transition, is_last_row, prime);
                let y = b.eval(curr_row, next_row, public_vals, is_first_row, is_transition, is_last_row, prime);
                x.bit_or(y)
            },
            ZEBRASymbolicExpr::Xor(a, b) => {
                let x = a.eval(curr_row, next_row, public_vals, is_first_row, is_transition, is_last_row, prime);
                let y = b.eval(curr_row, next_row, public_vals, is_first_row, is_transition, is_last_row, prime);
                x.bit_xor(y)
            },
            ZEBRASymbolicExpr::SRL(a, b) => {
                let x = a.eval(curr_row, next_row, public_vals, is_first_row, is_transition, is_last_row, prime);
                let y = b.eval(curr_row, next_row, public_vals, is_first_row, is_transition, is_last_row, prime);
                x.shr(y)
            },
            ZEBRASymbolicExpr::SRLCarry(a, b) => {
                let x = a.eval(curr_row, next_row, public_vals, is_first_row, is_transition, is_last_row, prime);
                let y = b.eval(curr_row, next_row, public_vals, is_first_row, is_transition, is_last_row, prime);
                x.shr_carry(y).1
            },
            ZEBRASymbolicExpr::Lt(a, b) => {
                let x = a.eval(curr_row, next_row, public_vals, is_first_row, is_transition, is_last_row, prime);
                let y = b.eval(curr_row, next_row, public_vals, is_first_row, is_transition, is_last_row, prime);
                x.ltu(y)
            },
            ZEBRASymbolicExpr::Msb(a) => {
                let x = a.eval(curr_row, next_row, public_vals, is_first_row, is_transition, is_last_row, prime);
                msb_maybe(&x)
            },
            ZEBRASymbolicExpr::Neg(a) => {
                let x = a.eval(curr_row, next_row, public_vals, is_first_row, is_transition, is_last_row, prime);
                x.negate()
            },
            ZEBRASymbolicExpr::Flip(a) => {
                let x = a.eval(curr_row, next_row, public_vals, is_first_row, is_transition, is_last_row, prime);
                flip_of(x, prime)
            },
            ZEBRASymbolicExpr::KoalaBearRange(a) => {
                let x = a.eval(curr_row, next_row, public_vals, is_first_row, is_transition, is_last_row, prime);
                flip_of(x.ltu(AbstractInterval::from_i128(KOALABEAR_PRIME)), prime)
            },
            ZEBRASymbolicExpr::BabyBearRange(a) => {
                let x = a.eval(curr_row, next_row, public_vals, is_first_row, is_transition, is_last_row, prime);
                flip_of(x.ltu(AbstractInterval::from_i128(BABYBEAR_PRIME)), prime)
            },
            _ => AbstractInterval::zero(),
        }
    }

    /// Evaluates the word operators on the evaluated limbs.
    fn eval_word_operator(
        &self,
        curr_row: &[AbstractInterval],
        next_row: Option<&[AbstractInterval]>,
        public_vals: Option<&[AbstractInterval]>,
        is_first_row: bool,
        is_transition: bool,
        is_last_row: bool,
        prime: u32,
    ) -> (r: AbstractInterval)
        requires
            prime > 0,
            self.eval_group() == 2,
            self.evaluable(make_env(curr_row@, next_row, public_vals, is_first_row, is_transition, is_last_row, prime)),
        ensures
            r == self.value_of(make_env(curr_row@, next_row, public_vals, is_first_row, is_transition, is_last_row, prime)),
        decreases *self, 1nat,
    {
        match self {
            ZEBRASymbolicExpr::WordAddU(b, c) => {
                let bw = Self::eval_word(b, curr_row, next_row, public_vals, is_first_row, is_transition, is_last_row, prime);
                let cw = Self::eval_word(c, curr_row, next_row, public_vals, is_first_row, is_transition, is_last_row, prime);
                apply_word_kind(WordKind::AddU, &bw, &cw)
            },
            ZEBRASymbolicExpr::WordSubU(b, c) => {
                let bw = Self::eval_word(b, curr_row, next_row, public_vals, is_first_row, is_transition, is_last_row, prime);
                let cw = Self::eval_word(c, curr_row, next_row, public_vals, is_first_row, is_transition, is_last_row, prime);
                apply_word_kind(WordKind::SubU, &bw, &cw)
            },
            ZEBRASymbolicExpr::WordMul(b, c) => {
                let bw = Self::eval_word(b, curr_row, next_row, public_vals, is_first_row, is_transition, is_last_row, prime);
                let cw = Self::eval_word(c, curr_row, next_row, public_vals, is_first_row, is_transition, is_last_row, prime);
                apply_word_kind(WordKind::Mul, &bw, &cw)
            },
            ZEBRASymbolicExpr::WordMulhu(b, c) => {
                let bw = Self::eval_word(b, curr_row, next_row, public_vals, is_first_row, is_transition, is_last_row, prime);
                let cw = Self::eval_word(c, curr_row, next_row, public_vals, is_first_row, is_transition, is_last_row, prime);
                apply_word_kind(WordKind::Mulhu, &bw, &cw)
            },
            ZEBRASymbolicExpr::WordMulhs(b, c) => {
                let bw = Self::eval_word(b, curr_row, next_row, public_vals, is_first_row, is_transition, is_last_row, prime);
                let cw = Self::eval_word(c, curr_row, next_row, public_vals, is_first_row, is_transition, is_last_row, prime);
                apply_word_kind(WordKind::Mulhs, &bw, &cw)
            },
            ZEBRASymbolicExpr::WordMultl(b, c) => {
                let bw = Self::eval_word(b, curr_row, next_row, public_vals, is_first_row, is_transition, is_last_row, prime);
                let cw = Self::eval_word(c, curr_row, next_row, public_vals, is_first_row, is_transition, is_last_row, prime);
                apply_word_kind(WordKind::Multl, &bw, &cw)
            },
            ZEBRASymbolicExpr::WordMulth(b, c) => {
                let bw = Self::eval_word(b, curr_row, next_row, public_vals, is_first_row, is_transition, is_last_row, prime);
                let cw = Self::eval_word(c, curr_row, next_row, public_vals, is_first_row, is_transition, is_last_row, prime);
                apply_word_kind(WordKind::Multh, &bw, &cw)
            },
            ZEBRASymbolicExpr::WordMultul(b, c) => {
                let bw = Self::eval_word(b, curr_row, next_row, public_vals, is_first_row, is_transition, is_last_row, prime);
                let cw = Self::eval_word(c, curr_row, next_row, public_vals, is_first_row, is_transition, is_last_row, prime);
                apply_word_kind(WordKind::Multul, &bw, &cw)
            },
            ZEBRASymbolicExpr::WordMultuh(b, c) => {
                let bw = Self::eval_word(b, curr_row, next_row, public_vals, is_first_row, is_transition, is_last_row, prime);
                let cw = Self::eval_word(c, curr_row, next_row, public_vals, is_first_row, is_transition, is_last_row, prime);
                apply_word_kind(WordKind::Multuh, &bw, &cw)
            },
            ZEBRASymbolicExpr::WordDiv(b, c) => {
                let bw = Self::eval_word(b, curr_row, next_row, public_vals, is_first_row, is_transition, is_last_row, prime);
                let cw = Self::eval_word(c, curr_row, next_row, public_vals, is_first_row, is_transition, is_last_row, prime);
                apply_word_kind(WordKind::Div, &bw, &cw)
            },
            ZEBRASymbolicExpr::WordSDiv(b, c) => {
                let bw = Self::eval_word(b, curr_row, next_row, public_vals, is_first_row, is_transition, is_last_row, prime);
                let cw = Self::eval_word(c, curr_row, next_row, public_vals, is_first_row, is_transition, is_last_row, prime);
                apply_word_kind(WordKind::SDiv, &bw, &cw)
            },
            ZEBRASymbolicExpr::WordLt(b, c) => {
                let bw = Self::eval_word(b, curr_row, next_row, public_vals, is_first_row, is_transition, is_last_row, prime);
                let cw = Self::eval_word(c, curr_row, next_row, public_vals, is_first_row, is_transition, is_last_row, prime);
                apply_word_kind(WordKind::Lt, &bw, &cw)
            },
            ZEBRASymbolicExpr::WordSLe(b, c) => {
                let bw = Self::eval_word(b, curr_row, next_row, public_vals, is_first_row, is_transition, is_last_row, prime);
                let cw = Self::eval_word(c, curr_row, next_row, public_vals, is_first_row, is_transition, is_last_row, prime);
                apply_word_kind(WordKind::SLe, &bw, &cw)
            },
            ZEBRASymbolicExpr::WordSLt(b, c) => {
                let bw = Self::eval_word(b, curr_row, next_row, public_vals, is_first_row, is_transition, is_last_row, prime);
                let cw = Self::eval_word(c, curr_row, next_row, public_vals, is_first_row, is_transition, is_last_row, prime);
                apply_word_kind(WordKind::SLt, &bw, &cw)
            },
            ZEBRASymbolicExpr::WordAnd(b, c) => {
                let bw = Self::eval_word(b, curr_row, next_row, public_vals, is_first_row, is_transition, is_last_row, prime);
                let cw = Self::eval_word(c, curr_row, next_row, public_vals, is_first_row, is_transition, is_last_row, prime);
                apply_word_kind(WordKind::And, &bw, &cw)
            },
            ZEBRASymbolicExpr::WordOr(b, c) => {
                let bw = Self::eval_word(b, curr_row, next_row, public_vals, is_first_row, is_transition, is_last_row, prime);
                let cw = Self::eval_word(c, curr_row, next_row, public_vals, is_first_row, is_transition, is_last_row, prime);
                apply_word_kind(WordKind::Or, &bw, &cw)
            },
            ZEBRASymbolicExpr::WordXOr(b, c) => {
                let bw = Self::eval_word(b, curr_row, next_row, public_vals, is_first_row, is_transition, is_last_row, prime);
                let cw = Self::eval_word(c, curr_row, next_row, public_vals, is_first_row, is_transition, is_last_row, prime);
                apply_word_kind(WordKind::XOr, &bw, &cw)
            },
            ZEBRASymbolicExpr::WordEq(b, c) => {
                let bw = Self::eval_word(b, curr_row, next_row, public_vals, is_first_row, is_transition, is_last_row, prime);
                let cw = Self::eval_word(c, curr_row, next_row, public_vals, is_first_row, is_transition, is_last_row, prime);
                apply_word_kind(WordKind::Eq, &bw, &cw)
            },
            ZEBRASymbolicExpr::WordNEq(b, c) => {
                let bw = Self::eval_word(b, curr_row, next_row, public_vals, is_first_row, is_transition, is_last_row, prime);
                let cw = Self::eval_word(c, curr_row, next_row, public_vals, is_first_row, is_transition, is_last_row, prime);
                apply_word_kind(WordKind::NEq, &bw, &cw)
            },
            ZEBRASymbolicExpr::WordSrl(b, c) => {
                let bw = Self::eval_word(b, curr_row, next_row, public_vals, is_first_row, is_transition, is_last_row, prime);
                let cw = Self::eval_word(c, curr_row, next_row, public_vals, is_first_row, is_transition, is_last_row, prime);
                apply_word_kind(WordKind::Srl, &bw, &cw)
            },
            _ => AbstractInterval::zero(),
        }
    }
}

impl ExprWord {
    /// A copy of the word, limb by limb.
    pub fn deep_copy(&self) -> (r: Self)
        ensures
            r == *self,
        decreases *self, 0nat,
    {
        ExprWord {
            l0: Box::new(self.l0.deep_copy()),
            l1: Box::new(self.l1.deep_copy()),
            l2: Box::new(self.l2.deep_copy()),
            l3: Box::new(self.l3.deep_copy()),
        }
    }
}

impl ZEBRASymbolicExpr {
    /// A copy of the expression tree, node by node.
    pub fn deep_copy(&self) -> (r: Self)
        ensures
            r == *self,
        decreases *self, 1nat,
    {
        match self {
            ZEBRASymbolicExpr::IsFirstRow => ZEBRASymbolicExpr::IsFirstRow,
            ZEBRASymbolicExpr::IsTransition => ZEBRASymbolicExpr::IsTransition,
            ZEBRASymbolicExpr::IsLastRow => ZEBRASymbolicExpr::IsLastRow,
            ZEBRASymbolicExpr::Constant(c) => ZEBRASymbolicExpr::Constant(*c),
            ZEBRASymbolicExpr::Variable(v) => ZEBRASymbolicExpr::Variable(*v),
            ZEBRASymbolicExpr::WhenNonZero(a, b) => ZEBRASymbolicExpr::WhenNonZero(
                Box::new(a.deep_copy()),
                Box::new(b.deep_copy()),
            ),
            ZEBRASymbolicExpr::WhenZero(a, b) => ZEBRASymbolicExpr::WhenZero(
                Box::new(a.deep_copy()),
                Box::new(b.deep_copy()),
            ),
            ZEBRASymbolicExpr::Add(a, b) => ZEBRASymbolicExpr::Add(
                Box::new(a.deep_copy()),
                Box::new(b.deep_copy()),
            ),
            ZEBRASymbolicExpr::Sub(a, b) => ZEBRASymbolicExpr::Sub(
                Box::new(a.deep_copy()),
                Box::new(b.deep_copy()),
            ),
            ZEBRASymbolicExpr::Mul(a, b) => ZEBRASymbolicExpr::Mul(
                Box::new(a.deep_copy()),
                Box::new(b.deep_copy()),
            ),
            ZEBRASymbolicExpr::MulLo(a, b) => ZEBRASymbolicExpr::MulLo(
                Box::new(a.deep_copy()),
                Box::new(b.deep_copy()),
            ),
            ZEBRASymbolicExpr::MulHiSS(a, b) => ZEBRASymbolicExpr::MulHiSS(
                Box::new(a.deep_copy()),
                Box::new(b.deep_copy()),
            ),
            ZEBRASymbolicExpr::MulHiUU(a, b) => ZEBRASymbolicExpr::MulHiUU(
                Box::new(a.deep_copy()),
                Box::new(b.deep_copy()),
            ),
            ZEBRASymbolicExpr::And(a, b) => ZEBRASymbolicExpr::And(
                Box::new(a.deep_copy()),
                Box::new(b.deep_copy()),
            ),
            ZEBRASymbolicExpr::Or(a, b) => ZEBRASymbolicExpr::Or(
                Box::new(a.deep_copy()),
                Box::new(b.deep_copy()),
            ),
            ZEBRASymbolicExpr::Xor(a, b) => ZEBRASymbolicExpr::Xor(
                Box::new(a.deep_copy()),
                Box::new(b.deep_copy()),
            ),
            ZEBRASymbolicExpr::SRL(a, b) => ZEBRASymbolicExpr::SRL(
                Box::new(a.deep_copy()),
                Box::new(b.deep_copy()),
            ),
            ZEBRASymbolicExpr::SRLCarry(a, b) => ZEBRASymbolicExpr::SRLCarry(
                Box::new(a.deep_copy()),
                Box::new(b.deep_copy()),
            ),
            ZEBRASymbolicExpr::Lt(a, b) => ZEBRASymbolicExpr::Lt(
                Box::new(a.deep_copy()),
                Box::new(b.deep_copy()),
            ),
            ZEBRASymbolicExpr::Msb(a) => ZEBRASymbolicExpr::Msb(Box::new(a.deep_copy())),
            ZEBRASymbolicExpr::Neg(a) => ZEBRASymbolicExpr::Neg(Box::new(a.deep_copy())),
            ZEBRASymbolicExpr::Flip(a) => ZEBRASymbolicExpr::Flip(Box::new(a.deep_copy())),
            ZEBRASymbolicExpr::KoalaBearRange(a) => ZEBRASymbolicExpr::KoalaBearRange(Box::new(a.deep_copy())),
            ZEBRASymbolicExpr::BabyBearRange(a) => ZEBRASymbolicExpr::BabyBearRange(Box::new(a.deep_copy())),
            ZEBRASymbolicExpr::WordAddU(b, c) => ZEBRASymbolicExpr::WordAddU(b.deep_copy(), c.deep_copy()),
            ZEBRASymbolicExpr::WordSubU(b, c) => ZEBRASymbolicExpr::WordSubU(b.deep_copy(), c.deep_copy()),
            ZEBRASymbolicExpr::WordMul(b, c) => ZEBRASymbolicExpr::WordMul(b.deep_copy(), c.deep_copy()),
            ZEBRASymbolicExpr::WordMulhu(b, c) => ZEBRASymbolicExpr::WordMulhu(b.deep_copy(), c.deep_copy()),
            ZEBRASymbolicExpr::WordMulhs(b, c) => ZEBRASymbolicExpr::WordMulhs(b.deep_copy(), c.deep_copy()),
            ZEBRASymbolicExpr::WordMultl(b, c) => ZEBRASymbolicExpr::WordMultl(b.deep_copy(), c.deep_copy()),
            ZEBRASymbolicExpr::WordMulth(b, c) => ZEBRASymbolicExpr::WordMulth(b.deep_copy(), c.deep_copy()),
            ZEBRASymbolicExpr::WordMultul(b, c) => ZEBRASymbolicExpr::WordMultul(b.deep_copy(), c.deep_copy()),
            ZEBRASymbolicExpr::WordMultuh(b, c) => ZEBRASymbolicExpr::WordMultuh(b.deep_copy(), c.deep_copy()),
            ZEBRASymbolicExpr::WordDiv(b, c) => ZEBRASymbolicExpr::WordDiv(b.deep_copy(), c.deep_copy()),
            ZEBRASymbolicExpr::WordSDiv(b, c) => ZEBRASymbolicExpr::WordSDiv(b.deep_copy(), c.deep_copy()),
            ZEBRASymbolicExpr::WordLt(b, c) => ZEBRASymbolicExpr::WordLt(b.deep_copy(), c.deep_copy()),
            ZEBRASymbolicExpr::WordSLe(b, c) => ZEBRASymbolicExpr::WordSLe(b.deep_copy(), c.deep_copy()),
            ZEBRASymbolicExpr::WordSLt(b, c) => ZEBRASymbolicExpr::WordSLt(b.deep_copy(), c.deep_copy()),
            ZEBRASymbolicExpr::WordAnd(b, c) => ZEBRASymbolicExpr::WordAnd(b.deep_copy(), c.deep_copy()),
            ZEBRASymbolicExpr::WordOr(b, c) => ZEBRASymbolicExpr::WordOr(b.deep_copy(), c.deep_copy()),
            ZEBRASymbolicExpr::WordXOr(b, c) => ZEBRASymbolicExpr::WordXOr(b.deep_copy(), c.deep_copy()),
            ZEBRASymbolicExpr::WordEq(b, c) => ZEBRASymbolicExpr::WordEq(b.deep_copy(), c.deep_copy()),
            ZEBRASymbolicExpr::WordNEq(b, c) => ZEBRASymbolicExpr::WordNEq(b.deep_copy(), c.deep_copy()),
            ZEBRASymbolicExpr::WordSrl(b, c) => ZEBRASymbolicExpr::WordSrl(b.deep_copy(), c.deep_copy()),
        }
    }
}

impl Clone for ExprWord {
    fn clone(&self) -> (r: Self)
        ensures
            r == *self,
    {
        self.deep_copy()
    }
}

impl Clone for ZEBRASymbolicExpr {
    fn clone(&self) -> (r: Self)
        ensures
            r == *self,
    {
        self.deep_copy()
    }
}

} // verus!
