use vstd::prelude::*;

use crate::interval::AbstractInterval;
use crate::memory::{IntervalMemory, Segment};
use crate::smt_terms::{is_binary_op, is_unary_op, wrap1, wrap2};
use crate::symbolic::{ExprWord, ZEBRASymbolicEntry, ZEBRASymbolicExpr, ZEBRASymbolicVal};
use crate::text::{int_text, nat_text, push_int, push_nat};

verus! {

// ---------------------------------------------------------------------------
// intervals, entries, values
// ---------------------------------------------------------------------------

/// The text of an interval: its value when it is a singleton, else
/// `[lo, hi]`.
pub open spec fn interval_text(iv: AbstractInterval) -> Seq<char> {
    if iv.lo == iv.hi {
        int_text(iv.lo as int)
    } else {
        "["@ + int_text(iv.lo as int) + ", "@ + int_text(iv.hi as int) + "]"@
    }
}

/// The text of an entry: `curr` or `next` for a row of a trace segment,
/// `public` for the public inputs.
pub open spec fn entry_text(e: ZEBRASymbolicEntry) -> Seq<char> {
    match e {
        ZEBRASymbolicEntry::Main { is_curr } => if is_curr { "curr"@ } else { "next"@ },
        ZEBRASymbolicEntry::Permutation { is_curr } => if is_curr { "curr"@ } else { "next"@ },
        ZEBRASymbolicEntry::Preprocessed { is_curr } => if is_curr { "curr"@ } else { "next"@ },
        ZEBRASymbolicEntry::Public => "public"@,
    }
}

/// The text of a value: `entry[index]`.
pub open spec fn val_text(v: ZEBRASymbolicVal) -> Seq<char> {
    entry_text(v.entry) + "["@ + nat_text(v.index as nat) + "]"@
}

/// The text of an interval.
pub fn interval_string(iv: &AbstractInterval) -> (r: String)
    ensures
        r@ == interval_text(*iv),
{
    if iv.lo == iv.hi {
        let mut r = String::new();
        push_int(&mut r, iv.lo);
        assert(r@ =~= interval_text(*iv));
        r
    } else {
        let mut r = String::from_str("[");
        push_int(&mut r, iv.lo);
        r.append(", ");
        push_int(&mut r, iv.hi);
        r.append("]");
        r
    }
}

impl AbstractInterval {
    /// The text of the interval: its value when it is a singleton, else
    /// `[lo, hi]`.
    pub fn render(&self) -> (r: String)
        ensures
            r@ == interval_text(*self),
    {
        interval_string(self)
    }
}

impl ZEBRASymbolicEntry {
    /// The text of the entry: `curr`, `next` or `public`.
    pub fn render(&self) -> (r: String)
        ensures
            r@ == entry_text(*self),
    {
        match self {
            ZEBRASymbolicEntry::Main { is_curr } | ZEBRASymbolicEntry::Permutation { is_curr }
            | ZEBRASymbolicEntry::Preprocessed { is_curr } => {
                if *is_curr {
                    String::from_str("curr")
                } else {
                    String::from_str("next")
                }
            },
            ZEBRASymbolicEntry::Public => String::from_str("public"),
        }
    }
}

impl ZEBRASymbolicVal {
    /// The text of the value: `entry[index]`.
    pub fn render(&self) -> (r: String)
        ensures
            r@ == val_text(*self),
    {
        let mut r = self.entry.render();
        r.append("[");
        push_nat(&mut r, self.index as u128);
        r.append("]");
        r
    }
}

// ---------------------------------------------------------------------------
// expressions
// ---------------------------------------------------------------------------

/// The text of an operation on two words given by their limbs' texts:
/// `[a0, a1, a2, a3] op [b0, b1, b2, b3]`, where `op` holds the brackets
/// between the words.
pub open spec fn word_pair_text(
    op: Seq<char>,
    a0: Seq<char>,
    a1: Seq<char>,
    a2: Seq<char>,
    a3: Seq<char>,
    b0: Seq<char>,
    b1: Seq<char>,
    b2: Seq<char>,
    b3: Seq<char>,
) -> Seq<char> {
    "["@ + a0 + ", "@ + a1 + ", "@ + a2 + ", "@ + a3 + op + b0 + ", "@ + b1 + ", "@ + b2 + ", "@
        + b3 + "]"@
}

/// An operation on two words.
pub open spec fn is_word_pair(e: ZEBRASymbolicExpr) -> bool {
    ||| e is WordAddU
    ||| e is WordSubU
    ||| e is WordMul
    ||| e is WordMulhu
    ||| e is WordMulhs
    ||| e is WordMultl
    ||| e is WordMulth
    ||| e is WordMultul
    ||| e is WordMultuh
    ||| e is WordDiv
    ||| e is WordSDiv
    ||| e is WordLt
    ||| e is WordSLe
    ||| e is WordSLt
    ||| e is WordAnd
    ||| e is WordOr
    ||| e is WordXOr
    ||| e is WordEq
    ||| e is WordNEq
    ||| e is WordSrl
}

/// The text of an expression, fully parenthesised: infix operators in
/// parentheses, words as their four limbs in brackets.
pub open spec fn expr_text(e: ZEBRASymbolicExpr) -> Seq<char>
    decreases e,
{
    match e {
        ZEBRASymbolicExpr::IsFirstRow => "IsFirstRow"@,
        ZEBRASymbolicExpr::IsTransition => "IsTransition"@,
        ZEBRASymbolicExpr::IsLastRow => "IsLastRow"@,
        ZEBRASymbolicExpr::Constant(c) => interval_text(c),
        ZEBRASymbolicExpr::Variable(v) => val_text(v),
        ZEBRASymbolicExpr::WhenNonZero(a, b) => "(["@ + expr_text(*a) + " /= 0] => "@ + expr_text(*b) + ")"@,
        ZEBRASymbolicExpr::WhenZero(a, b) => "(["@ + expr_text(*a) + " = 0] => "@ + expr_text(*b) + ")"@,
        ZEBRASymbolicExpr::Add(a, b) => "("@ + expr_text(*a) + " + "@ + expr_text(*b) + ")"@,
        ZEBRASymbolicExpr::Sub(a, b) => "("@ + expr_text(*a) + " - "@ + expr_text(*b) + ")"@,
        ZEBRASymbolicExpr::Mul(a, b) => "("@ + expr_text(*a) + " * "@ + expr_text(*b) + ")"@,
        ZEBRASymbolicExpr::MulLo(a, b) => "("@ + expr_text(*a) + " *_lo "@ + expr_text(*b) + ")"@,
        ZEBRASymbolicExpr::MulHiSS(a, b) => "("@ + expr_text(*a) + " *_hiss "@ + expr_text(*b) + ")"@,
        ZEBRASymbolicExpr::MulHiUU(a, b) => "("@ + expr_text(*a) + " *_hiuu "@ + expr_text(*b) + ")"@,
        ZEBRASymbolicExpr::And(a, b) => "("@ + expr_text(*a) + " && "@ + expr_text(*b) + ")"@,
        ZEBRASymbolicExpr::Or(a, b) => "("@ + expr_text(*a) + " || "@ + expr_text(*b) + ")"@,
        ZEBRASymbolicExpr::Xor(a, b) => "("@ + expr_text(*a) + " ^ "@ + expr_text(*b) + ")"@,
        ZEBRASymbolicExpr::SRL(a, b) => "("@ + expr_text(*a) + " >> "@ + expr_text(*b) + ")"@,
        ZEBRASymbolicExpr::SRLCarry(a, b) => "("@ + expr_text(*a) + " >>~ "@ + expr_text(*b) + ")"@,
        ZEBRASymbolicExpr::Lt(a, b) => "("@ + expr_text(*a) + " < "@ + expr_text(*b) + ")"@,
        ZEBRASymbolicExpr::Msb(a) => "msb("@ + expr_text(*a) + ")"@,
        ZEBRASymbolicExpr::Neg(a) => "-"@ + expr_text(*a) + ""@,
        ZEBRASymbolicExpr::Flip(a) => "~"@ + expr_text(*a) + ""@,
        ZEBRASymbolicExpr::KoalaBearRange(a) => "🐨"@ + expr_text(*a) + "🐨"@,
        ZEBRASymbolicExpr::BabyBearRange(a) => "👶"@ + expr_text(*a) + "👶"@,
        ZEBRASymbolicExpr::WordAddU(a, b) => word_pair_text("] +u ["@, expr_text(*a.l0), expr_text(*a.l1), expr_text(*a.l2), expr_text(*a.l3), expr_text(*b.l0), expr_text(*b.l1), expr_text(*b.l2), expr_text(*b.l3)),
        ZEBRASymbolicExpr::WordSubU(a, b) => word_pair_text("] -u ["@, expr_text(*a.l0), expr_text(*a.l1), expr_text(*a.l2), expr_text(*a.l3), expr_text(*b.l0), expr_text(*b.l1), expr_text(*b.l2), expr_text(*b.l3)),
        ZEBRASymbolicExpr::WordMul(a, b) => word_pair_text("] * ["@, expr_text(*a.l0), expr_text(*a.l1), expr_text(*a.l2), expr_text(*a.l3), expr_text(*b.l0), expr_text(*b.l1), expr_text(*b.l2), expr_text(*b.l3)),
        ZEBRASymbolicExpr::WordMulhu(a, b) => word_pair_text("] *_hu ["@, expr_text(*a.l0), expr_text(*a.l1), expr_text(*a.l2), expr_text(*a.l3), expr_text(*b.l0), expr_text(*b.l1), expr_text(*b.l2), expr_text(*b.l3)),
        ZEBRASymbolicExpr::WordMulhs(a, b) => word_pair_text("] *_hs ["@, expr_text(*a.l0), expr_text(*a.l1), expr_text(*a.l2), expr_text(*a.l3), expr_text(*b.l0), expr_text(*b.l1), expr_text(*b.l2), expr_text(*b.l3)),
        ZEBRASymbolicExpr::WordMultl(a, b) => word_pair_text("] *_tl ["@, expr_text(*a.l0), expr_text(*a.l1), expr_text(*a.l2), expr_text(*a.l3), expr_text(*b.l0), expr_text(*b.l1), expr_text(*b.l2), expr_text(*b.l3)),
        ZEBRASymbolicExpr::WordMulth(a, b) => word_pair_text("] *_th ["@, expr_text(*a.l0), expr_text(*a.l1), expr_text(*a.l2), expr_text(*a.l3), expr_text(*b.l0), expr_text(*b.l1), expr_text(*b.l2), expr_text(*b.l3)),
        ZEBRASymbolicExpr::WordMultul(a, b) => word_pair_text("] *_tul ["@, expr_text(*a.l0), expr_text(*a.l1), expr_text(*a.l2), expr_text(*a.l3), expr_text(*b.l0), expr_text(*b.l1), expr_text(*b.l2), expr_text(*b.l3)),
        ZEBRASymbolicExpr::WordMultuh(a, b) => word_pair_text("] *_tuh ["@, expr_text(*a.l0), expr_text(*a.l1), expr_text(*a.l2), expr_text(*a.l3), expr_text(*b.l0), expr_text(*b.l1), expr_text(*b.l2), expr_text(*b.l3)),
        ZEBRASymbolicExpr::WordDiv(a, b) => word_pair_text("] / ["@, expr_text(*a.l0), expr_text(*a.l1), expr_text(*a.l2), expr_text(*a.l3), expr_text(*b.l0), expr_text(*b.l1), expr_text(*b.l2), expr_text(*b.l3)),
        ZEBRASymbolicExpr::WordSDiv(a, b) => word_pair_text("] /_s ["@, expr_text(*a.l0), expr_text(*a.l1), expr_text(*a.l2), expr_text(*a.l3), expr_text(*b.l0), expr_text(*b.l1), expr_text(*b.l2), expr_text(*b.l3)),
        ZEBRASymbolicExpr::WordLt(a, b) => word_pair_text("] < ["@, expr_text(*a.l0), expr_text(*a.l1), expr_text(*a.l2), expr_text(*a.l3), expr_text(*b.l0), expr_text(*b.l1), expr_text(*b.l2), expr_text(*b.l3)),
        ZEBRASymbolicExpr::WordSLt(a, b) => word_pair_text("] <_s ["@, expr_text(*a.l0), expr_text(*a.l1), expr_text(*a.l2), expr_text(*a.l3), expr_text(*b.l0), expr_text(*b.l1), expr_text(*b.l2), expr_text(*b.l3)),
        ZEBRASymbolicExpr::WordSLe(a, b) => word_pair_text("] <=_s ["@, expr_text(*a.l0), expr_text(*a.l1), expr_text(*a.l2), expr_text(*a.l3), expr_text(*b.l0), expr_text(*b.l1), expr_text(*b.l2), expr_text(*b.l3)),
        ZEBRASymbolicExpr::WordAnd(a, b) => word_pair_text("] & ["@, expr_text(*a.l0), expr_text(*a.l1), expr_text(*a.l2), expr_text(*a.l3), expr_text(*b.l0), expr_text(*b.l1), expr_text(*b.l2), expr_text(*b.l3)),
        ZEBRASymbolicExpr::WordOr(a, b) => word_pair_text("] | ["@, expr_text(*a.l0), expr_text(*a.l1), expr_text(*a.l2), expr_text(*a.l3), expr_text(*b.l0), expr_text(*b.l1), expr_text(*b.l2), expr_text(*b.l3)),
        ZEBRASymbolicExpr::WordXOr(a, b) => word_pair_text("] ^ ["@, expr_text(*a.l0), expr_text(*a.l1), expr_text(*a.l2), expr_text(*a.l3), expr_text(*b.l0), expr_text(*b.l1), expr_text(*b.l2), expr_text(*b.l3)),
        ZEBRASymbolicExpr::WordEq(a, b) => word_pair_text("] == ["@, expr_text(*a.l0), expr_text(*a.l1), expr_text(*a.l2), expr_text(*a.l3), expr_text(*b.l0), expr_text(*b.l1), expr_text(*b.l2), expr_text(*b.l3)),
        ZEBRASymbolicExpr::WordNEq(a, b) => word_pair_text("] != ["@, expr_text(*a.l0), expr_text(*a.l1), expr_text(*a.l2), expr_text(*a.l3), expr_text(*b.l0), expr_text(*b.l1), expr_text(*b.l2), expr_text(*b.l3)),
        ZEBRASymbolicExpr::WordSrl(a, b) => word_pair_text("] >> ["@, expr_text(*a.l0), expr_text(*a.l1), expr_text(*a.l2), expr_text(*a.l3), expr_text(*b.l0), expr_text(*b.l1), expr_text(*b.l2), expr_text(*b.l3)),
    }
}

fn word_pair_join(
    op: &str,
    a0: String,
    a1: String,
    a2: String,
    a3: String,
    b0: String,
    b1: String,
    b2: String,
    b3: String,
) -> (r: String)
    ensures
        r@ == word_pair_text(op@, a0@, a1@, a2@, a3@, b0@, b1@, b2@, b3@),
{
    let mut r = String::from_str("[");
    r.append(a0.as_str());
    r.append(", ");
    r.append(a1.as_str());
    r.append(", ");
    r.append(a2.as_str());
    r.append(", ");
    r.append(a3.as_str());
    r.append(op);
    r.append(b0.as_str());
    r.append(", ");
    r.append(b1.as_str());
    r.append(", ");
    r.append(b2.as_str());
    r.append(", ");
    r.append(b3.as_str());
    r.append("]");
    r
}

/// The texts of a word's four limbs.
fn limb_strings(w: &ExprWord) -> (r: (String, String, String, String))
    ensures
        r.0@ == expr_text(*w.l0),
        r.1@ == expr_text(*w.l1),
        r.2@ == expr_text(*w.l2),
        r.3@ == expr_text(*w.l3),
    decreases w, 0nat,
{
    (expr_string(&w.l0), expr_string(&w.l1), expr_string(&w.l2), expr_string(&w.l3))
}

/// The text of an expression (`expr_text`).
pub fn expr_string(e: &ZEBRASymbolicExpr) -> (r: String)
    ensures
        r@ == expr_text(*e),
    decreases e, 1nat,
{
    match e {
        ZEBRASymbolicExpr::IsFirstRow => String::from_str("IsFirstRow"),
        ZEBRASymbolicExpr::IsTransition => String::from_str("IsTransition"),
        ZEBRASymbolicExpr::IsLastRow => String::from_str("IsLastRow"),
        ZEBRASymbolicExpr::Constant(c) => interval_string(c),
        ZEBRASymbolicExpr::Variable(v) => v.render(),
        ZEBRASymbolicExpr::WhenNonZero(..) | ZEBRASymbolicExpr::WhenZero(..)
        | ZEBRASymbolicExpr::Add(..) | ZEBRASymbolicExpr::Sub(..) | ZEBRASymbolicExpr::Mul(..)
        | ZEBRASymbolicExpr::MulLo(..) | ZEBRASymbolicExpr::MulHiSS(..)
        | ZEBRASymbolicExpr::MulHiUU(..) | ZEBRASymbolicExpr::Lt(..) | ZEBRASymbolicExpr::And(..)
        | ZEBRASymbolicExpr::Or(..) | ZEBRASymbolicExpr::Xor(..) | ZEBRASymbolicExpr::SRL(..)
        | ZEBRASymbolicExpr::SRLCarry(..) => binary_string(e),
        ZEBRASymbolicExpr::Flip(..) | ZEBRASymbolicExpr::Neg(..)
        | ZEBRASymbolicExpr::KoalaBearRange(..) | ZEBRASymbolicExpr::BabyBearRange(..)
        | ZEBRASymbolicExpr::Msb(..) => unary_string(e),
        _ => word_pair_string(e),
    }
}

/// The text of a binary operation.
fn binary_string(e: &ZEBRASymbolicExpr) -> (r: String)
    requires
        is_binary_op(*e),
    ensures
        r@ == expr_text(*e),
    decreases e, 0nat,
{
    match e {
        ZEBRASymbolicExpr::WhenNonZero(a, b) => wrap2("([", expr_string(a), " /= 0] => ", expr_string(b), ")"),
        ZEBRASymbolicExpr::WhenZero(a, b) => wrap2("([", expr_string(a), " = 0] => ", expr_string(b), ")"),
        ZEBRASymbolicExpr::Add(a, b) => wrap2("(", expr_string(a), " + ", expr_string(b), ")"),
        ZEBRASymbolicExpr::Sub(a, b) => wrap2("(", expr_string(a), " - ", expr_string(b), ")"),
        ZEBRASymbolicExpr::Mul(a, b) => wrap2("(", expr_string(a), " * ", expr_string(b), ")"),
        ZEBRASymbolicExpr::MulLo(a, b) => wrap2("(", expr_string(a), " *_lo ", expr_string(b), ")"),
        ZEBRASymbolicExpr::MulHiSS(a, b) => wrap2("(", expr_string(a), " *_hiss ", expr_string(b), ")"),
        ZEBRASymbolicExpr::MulHiUU(a, b) => wrap2("(", expr_string(a), " *_hiuu ", expr_string(b), ")"),
        ZEBRASymbolicExpr::And(a, b) => wrap2("(", expr_string(a), " && ", expr_string(b), ")"),
        ZEBRASymbolicExpr::Or(a, b) => wrap2("(", expr_string(a), " || ", expr_string(b), ")"),
        ZEBRASymbolicExpr::Xor(a, b) => wrap2("(", expr_string(a), " ^ ", expr_string(b), ")"),
        ZEBRASymbolicExpr::SRL(a, b) => wrap2("(", expr_string(a), " >> ", expr_string(b), ")"),
        ZEBRASymbolicExpr::SRLCarry(a, b) => wrap2("(", expr_string(a), " >>~ ", expr_string(b), ")"),
        ZEBRASymbolicExpr::Lt(a, b) => wrap2("(", expr_string(a), " < ", expr_string(b), ")"),
        _ => String::new(),
    }
}

/// The text of a unary operation.
fn unary_string(e: &ZEBRASymbolicExpr) -> (r: String)
    requires
        is_unary_op(*e),
    ensures
        r@ == expr_text(*e),
    decreases e, 0nat,
{
    match e {
        ZEBRASymbolicExpr::Msb(a) => wrap1("msb(", expr_string(a), ")"),
        ZEBRASymbolicExpr::Neg(a) => wrap1("-", expr_string(a), ""),
        ZEBRASymbolicExpr::Flip(a) => wrap1("~", expr_string(a), ""),
        ZEBRASymbolicExpr::KoalaBearRange(a) => wrap1("🐨", expr_string(a), "🐨"),
        ZEBRASymbolicExpr::BabyBearRange(a) => wrap1("👶", expr_string(a), "👶"),
        _ => String::new(),
    }
}

/// The text of an operation on two words.
fn word_pair_string(e: &ZEBRASymbolicExpr) -> (r: String)
    requires
        is_word_pair(*e),
    ensures
        r@ == expr_text(*e),
    decreases e, 0nat,
{
    match e {
        ZEBRASymbolicExpr::WordAddU(a, b) => {
            let (a0, a1, a2, a3) = limb_strings(a);
            let (b0, b1, b2, b3) = limb_strings(b);
            word_pair_join("] +u [", a0, a1, a2, a3, b0, b1, b2, b3)
        },
        ZEBRASymbolicExpr::WordSubU(a, b) => {
            let (a0, a1, a2, a3) = limb_strings(a);
            let (b0, b1, b2, b3) = limb_strings(b);
            word_pair_join("] -u [", a0, a1, a2, a3, b0, b1, b2, b3)
        },
        ZEBRASymbolicExpr::WordMul(a, b) => {
            let (a0, a1, a2, a3) = limb_strings(a);
            let (b0, b1, b2, b3) = limb_strings(b);
            word_pair_join("] * [", a0, a1, a2, a3, b0, b1, b2, b3)
        },
        ZEBRASymbolicExpr::WordMulhu(a, b) => {
            let (a0, a1, a2, a3) = limb_strings(a);
            let (b0, b1, b2, b3) = limb_strings(b);
            word_pair_join("] *_hu [", a0, a1, a2, a3, b0, b1, b2, b3)
        },
        ZEBRASymbolicExpr::WordMulhs(a, b) => {
            let (a0, a1, a2, a3) = limb_strings(a);
            let (b0, b1, b2, b3) = limb_strings(b);
            word_pair_join("] *_hs [", a0, a1, a2, a3, b0, b1, b2, b3)
        },
        ZEBRASymbolicExpr::WordMultl(a, b) => {
            let (a0, a1, a2, a3) = limb_strings(a);
            let (b0, b1, b2, b3) = limb_strings(b);
            word_pair_join("] *_tl [", a0, a1, a2, a3, b0, b1, b2, b3)
        },
        ZEBRASymbolicExpr::WordMulth(a, b) => {
            let (a0, a1, a2, a3) = limb_strings(a);
            let (b0, b1, b2, b3) = limb_strings(b);
            word_pair_join("] *_th [", a0, a1, a2, a3, b0, b1, b2, b3)
        },
        ZEBRASymbolicExpr::WordMultul(a, b) => {
            let (a0, a1, a2, a3) = limb_strings(a);
            let (b0, b1, b2, b3) = limb_strings(b);
            word_pair_join("] *_tul [", a0, a1, a2, a3, b0, b1, b2, b3)
        },
        ZEBRASymbolicExpr::WordMultuh(a, b) => {
            let (a0, a1, a2, a3) = limb_strings(a);
            let (b0, b1, b2, b3) = limb_strings(b);
            word_pair_join("] *_tuh [", a0, a1, a2, a3, b0, b1, b2, b3)
        },
        ZEBRASymbolicExpr::WordDiv(a, b) => {
            let (a0, a1, a2, a3) = limb_strings(a);
            let (b0, b1, b2, b3) = limb_strings(b);
            word_pair_join("] / [", a0, a1, a2, a3, b0, b1, b2, b3)
        },
        ZEBRASymbolicExpr::WordSDiv(a, b) => {
            let (a0, a1, a2, a3) = limb_strings(a);
            let (b0, b1, b2, b3) = limb_strings(b);
            word_pair_join("] /_s [", a0, a1, a2, a3, b0, b1, b2, b3)
        },
        ZEBRASymbolicExpr::WordLt(a, b) => {
            let (a0, a1, a2, a3) = limb_strings(a);
            let (b0, b1, b2, b3) = limb_strings(b);
            word_pair_join("] < [", a0, a1, a2, a3, b0, b1, b2, b3)
        },
        ZEBRASymbolicExpr::WordSLt(a, b) => {
            let (a0, a1, a2, a3) = limb_strings(a);
            let (b0, b1, b2, b3) = limb_strings(b);
            word_pair_join("] <_s [", a0, a1, a2, a3, b0, b1, b2, b3)
        },
        ZEBRASymbolicExpr::WordSLe(a, b) => {
            let (a0, a1, a2, a3) = limb_strings(a);
            let (b0, b1, b2, b3) = limb_strings(b);
            word_pair_join("] <=_s [", a0, a1, a2, a3, b0, b1, b2, b3)
        },
        ZEBRASymbolicExpr::WordAnd(a, b) => {
            let (a0, a1, a2, a3) = limb_strings(a);
            let (b0, b1, b2, b3) = limb_strings(b);
            word_pair_join("] & [", a0, a1, a2, a3, b0, b1, b2, b3)
        },
        ZEBRASymbolicExpr::WordOr(a, b) => {
            let (a0, a1, a2, a3) = limb_strings(a);
            let (b0, b1, b2, b3) = limb_strings(b);
            word_pair_join("] | [", a0, a1, a2, a3, b0, b1, b2, b3)
        },
        ZEBRASymbolicExpr::WordXOr(a, b) => {
            let (a0, a1, a2, a3) = limb_strings(a);
            let (b0, b1, b2, b3) = limb_strings(b);
            word_pair_join("] ^ [", a0, a1, a2, a3, b0, b1, b2, b3)
        },
        ZEBRASymbolicExpr::WordEq(a, b) => {
            let (a0, a1, a2, a3) = limb_strings(a);
            let (b0, b1, b2, b3) = limb_strings(b);
            word_pair_join("] == [", a0, a1, a2, a3, b0, b1, b2, b3)
        },
        ZEBRASymbolicExpr::WordNEq(a, b) => {
            let (a0, a1, a2, a3) = limb_strings(a);
            let (b0, b1, b2, b3) = limb_strings(b);
            word_pair_join("] != [", a0, a1, a2, a3, b0, b1, b2, b3)
        },
        ZEBRASymbolicExpr::WordSrl(a, b) => {
            let (a0, a1, a2, a3) = limb_strings(a);
            let (b0, b1, b2, b3) = limb_strings(b);
            word_pair_join("] >> [", a0, a1, a2, a3, b0, b1, b2, b3)
        },
        _ => String::new(),
    }
}


impl ZEBRASymbolicExpr {
    /// The text of the expression (`expr_text`).
    pub fn render(&self) -> (r: String)
        ensures
            r@ == expr_text(*self),
    {
        expr_string(self)
    }
}

// ---------------------------------------------------------------------------
// memory tables
// ---------------------------------------------------------------------------

/// `k` copies of the character `c`.
pub open spec fn repeat_char(c: char, k: nat) -> Seq<char> {
    Seq::new(k, |i: int| c)
}

/// `s` padded on the right with spaces to at least `w` characters.
pub open spec fn pad_to(s: Seq<char>, w: nat) -> Seq<char> {
    if s.len() >= w {
        s
    } else {
        s + repeat_char(' ', (w - s.len()) as nat)
    }
}

/// The width of the address column: the longest text of the first `k`
/// addresses, and at least that of its heading.
pub open spec fn addr_width(segs: Seq<Segment>, k: nat) -> nat
    decreases k,
{
    if k == 0 {
        "Address Interval"@.len()
    } else {
        let w = addr_width(segs, (k - 1) as nat);
        let a = interval_text(segs[k - 1].addr).len();
        if a > w {
            a
        } else {
            w
        }
    }
}

/// The line of one segment.
pub open spec fn segment_line(seg: Segment, w: nat) -> Seq<char> {
    "  "@ + pad_to(interval_text(seg.addr), w) + " | "@ + interval_text(seg.value) + "\n"@
}

/// The lines of the first `k` segments.
pub open spec fn segment_lines(segs: Seq<Segment>, w: nat, k: nat) -> Seq<char>
    decreases k,
{
    if k == 0 {
        Seq::empty()
    } else {
        segment_lines(segs, w, (k - 1) as nat) + segment_line(segs[k - 1], w)
    }
}

/// The table of a memory: a heading, a rule, one line per segment with its
/// address and value, and an empty line; the address column is as wide as
/// its longest entry.
pub open spec fn memory_text(segs: Seq<Segment>) -> Seq<char> {
    let w = addr_width(segs, segs.len());
    "  "@ + pad_to("Address Interval"@, w) + " | "@ + "Value Interval"@ + "\n"@ + "  "@ + repeat_char(
        '-',
        w,
    ) + "-+-"@ + repeat_char('-', 20) + "\n"@ + segment_lines(segs, w, segs.len()) + "\n"@
}

fn repeat_string(c: &str, k: usize) -> (r: String)
    requires
        c@.len() == 1,
    ensures
        r@ == repeat_char(c@[0], k as nat),
{
    let mut r = String::new();
    let mut i: usize = 0;
    while i < k
        invariant
            i <= k,
            c@.len() == 1,
            r@ == repeat_char(c@[0], i as nat),
        decreases k - i,
    {
        r.append(c);
        i = i + 1;
        assert(r@ =~= repeat_char(c@[0], i as nat));
    }
    r
}

fn pad_string(s: String, w: usize) -> (r: String)
    ensures
        r@ == pad_to(s@, w as nat),
{
    let n = s.as_str().unicode_len();
    if n >= w {
        s
    } else {
        proof {
            reveal_strlit(" ");
        }
        let mut r = s;
        let sp = repeat_string(" ", w - n);
        r.append(sp.as_str());
        r
    }
}

impl IntervalMemory {
    /// The table of the memory (`memory_text`).
    pub fn render(&self) -> (r: String)
        ensures
            r@ == memory_text(self@),
    {
        let segs = self.segs();
        let mut w: usize = "Address Interval".unicode_len();
        let mut k: usize = 0;
        while k < segs.len()
            invariant
                k <= segs@.len(),
                segs@ == self@,
                w == addr_width(segs@, k as nat),
            decreases segs@.len() - k,
        {
            let a = interval_string(&segs[k].addr);
            let n = a.as_str().unicode_len();
            if n > w {
                w = n;
            }
            k = k + 1;
        }
        let mut lines = String::new();
        let mut j: usize = 0;
        while j < segs.len()
            invariant
                j <= segs@.len(),
                segs@ == self@,
                w == addr_width(segs@, segs@.len()),
                lines@ == segment_lines(segs@, w as nat, j as nat),
            decreases segs@.len() - j,
        {
            let mut line = String::from_str("  ");
            let a = pad_string(interval_string(&segs[j].addr), w);
            line.append(a.as_str());
            line.append(" | ");
            let v = interval_string(&segs[j].value);
            line.append(v.as_str());
            line.append("\n");
            lines.append(line.as_str());
            j = j + 1;
        }
        let mut r = String::from_str("  ");
        let h = pad_string(String::from_str("Address Interval"), w);
        r.append(h.as_str());
        r.append(" | ");
        r.append("Value Interval");
        r.append("\n");
        r.append("  ");
        proof {
            reveal_strlit("-");
        }
        let d = repeat_string("-", w);
        r.append(d.as_str());
        r.append("-+-");
        let d20 = repeat_string("-", 20);
        r.append(d20.as_str());
        r.append("\n");
        r.append(lines.as_str());
        r.append("\n");
        r
    }
}

} // verus!
