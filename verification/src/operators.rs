use vstd::prelude::*;
use std::ops::{Add, BitAnd, BitOr, BitXor, Mul, Neg, Not, Sub};

use crate::interval::AbstractInterval;
use crate::symbolic::{ZEBRASymbolicExpr, ZEBRASymbolicVal};

verus! {

impl Add for AbstractInterval {
    type Output = Self;

    fn add(self, rhs: Self) -> (r: Self) {
        self.plus(rhs)
    }
}

impl vstd::std_specs::ops::AddSpecImpl for AbstractInterval {
    open spec fn obeys_add_spec() -> bool {
        true
    }

    open spec fn add_req(self, rhs: Self) -> bool {
        self.add_ok(rhs)
    }

    open spec fn add_spec(self, rhs: Self) -> Self {
        self.spec_add(rhs)
    }
}

impl Sub for AbstractInterval {
    type Output = Self;

    fn sub(self, rhs: Self) -> (r: Self) {
        self.minus(rhs)
    }
}

impl vstd::std_specs::ops::SubSpecImpl for AbstractInterval {
    open spec fn obeys_sub_spec() -> bool {
        true
    }

    open spec fn sub_req(self, rhs: Self) -> bool {
        self.sub_ok(rhs)
    }

    open spec fn sub_spec(self, rhs: Self) -> Self {
        self.spec_sub(rhs)
    }
}

impl Mul for AbstractInterval {
    type Output = Self;

    fn mul(self, rhs: Self) -> (r: Self) {
        self.times(rhs)
    }
}

impl vstd::std_specs::ops::MulSpecImpl for AbstractInterval {
    open spec fn obeys_mul_spec() -> bool {
        true
    }

    open spec fn mul_req(self, rhs: Self) -> bool {
        self.mul_ok(rhs)
    }

    open spec fn mul_spec(self, rhs: Self) -> Self {
        self.spec_mul(rhs)
    }
}

impl BitAnd for AbstractInterval {
    type Output = Self;

    fn bitand(self, rhs: Self) -> (r: Self) {
        self.bit_and(rhs)
    }
}

impl vstd::std_specs::ops::BitAndSpecImpl for AbstractInterval {
    open spec fn obeys_bitand_spec() -> bool {
        true
    }

    open spec fn bitand_req(self, rhs: Self) -> bool {
        self.lo >= 0 && rhs.lo >= 0
    }

    open spec fn bitand_spec(self, rhs: Self) -> Self {
        self.spec_bitand(rhs)
    }
}

impl BitOr for AbstractInterval {
    type Output = Self;

    fn bitor(self, rhs: Self) -> (r: Self) {
        self.bit_or(rhs)
    }
}

impl vstd::std_specs::ops::BitOrSpecImpl for AbstractInterval {
    open spec fn obeys_bitor_spec() -> bool {
        true
    }

    open spec fn bitor_req(self, rhs: Self) -> bool {
        self.lo >= 0 && rhs.lo >= 0
    }

    open spec fn bitor_spec(self, rhs: Self) -> Self {
        self.spec_bitor(rhs)
    }
}

impl BitXor for AbstractInterval {
    type Output = Self;

    fn bitxor(self, rhs: Self) -> (r: Self) {
        self.bit_xor(rhs)
    }
}

impl vstd::std_specs::ops::BitXorSpecImpl for AbstractInterval {
    open spec fn obeys_bitxor_spec() -> bool {
        true
    }

    open spec fn bitxor_req(self, rhs: Self) -> bool {
        self.lo >= 0 && rhs.lo >= 0
    }

    open spec fn bitxor_spec(self, rhs: Self) -> Self {
        self.spec_bitxor(rhs)
    }
}

impl Neg for AbstractInterval {
    type Output = Self;

    fn neg(self) -> (r: Self) {
        self.negate()
    }
}

impl vstd::std_specs::ops::NegSpecImpl for AbstractInterval {
    open spec fn obeys_neg_spec() -> bool {
        true
    }

    open spec fn neg_req(self) -> bool {
        self.neg_ok()
    }

    open spec fn neg_spec(self) -> Self {
        self.spec_neg()
    }
}

impl Not for AbstractInterval {
    type Output = Self;

    fn not(self) -> (r: Self) {
        self.bit_not()
    }
}

impl vstd::std_specs::ops::NotSpecImpl for AbstractInterval {
    open spec fn obeys_not_spec() -> bool {
        true
    }

    open spec fn not_req(self) -> bool {
        self.lo >= 0
    }

    open spec fn not_spec(self) -> Self {
        self.spec_bitnot()
    }
}


impl Add for ZEBRASymbolicExpr {
    type Output = Self;

    fn add(self, rhs: Self) -> (r: Self) {
        ZEBRASymbolicExpr::Add(Box::new(self), Box::new(rhs))
    }
}

impl vstd::std_specs::ops::AddSpecImpl for ZEBRASymbolicExpr {
    open spec fn obeys_add_spec() -> bool {
        true
    }

    open spec fn add_req(self, rhs: Self) -> bool {
        true
    }

    open spec fn add_spec(self, rhs: Self) -> Self {
        ZEBRASymbolicExpr::Add(Box::new(self), Box::new(rhs))
    }
}

impl Sub for ZEBRASymbolicExpr {
    type Output = Self;

    fn sub(self, rhs: Self) -> (r: Self) {
        ZEBRASymbolicExpr::Sub(Box::new(self), Box::new(rhs))
    }
}

impl vstd::std_specs::ops::SubSpecImpl for ZEBRASymbolicExpr {
    open spec fn obeys_sub_spec() -> bool {
        true
    }

    open spec fn sub_req(self, rhs: Self) -> bool {
        true
    }

    open spec fn sub_spec(self, rhs: Self) -> Self {
        ZEBRASymbolicExpr::Sub(Box::new(self), Box::new(rhs))
    }
}

impl Mul for ZEBRASymbolicExpr {
    type Output = Self;

    fn mul(self, rhs: Self) -> (r: Self) {
        ZEBRASymbolicExpr::Mul(Box::new(self), Box::new(rhs))
    }
}

impl vstd::std_specs::ops::MulSpecImpl for ZEBRASymbolicExpr {
    open spec fn obeys_mul_spec() -> bool {
        true
    }

    open spec fn mul_req(self, rhs: Self) -> bool {
        true
    }

    open spec fn mul_spec(self, rhs: Self) -> Self {
        ZEBRASymbolicExpr::Mul(Box::new(self), Box::new(rhs))
    }
}

impl Neg for ZEBRASymbolicExpr {
    type Output = Self;

    fn neg(self) -> (r: Self) {
        ZEBRASymbolicExpr::Neg(Box::new(self))
    }
}

impl vstd::std_specs::ops::NegSpecImpl for ZEBRASymbolicExpr {
    open spec fn obeys_neg_spec() -> bool {
        true
    }

    open spec fn neg_req(self) -> bool {
        true
    }

    open spec fn neg_spec(self) -> Self {
        ZEBRASymbolicExpr::Neg(Box::new(self))
    }
}

impl From<ZEBRASymbolicVal> for ZEBRASymbolicExpr {
    fn from(var: ZEBRASymbolicVal) -> (r: Self) {
        ZEBRASymbolicExpr::Variable(var)
    }
}

impl vstd::std_specs::convert::FromSpecImpl<ZEBRASymbolicVal> for ZEBRASymbolicExpr {
    open spec fn obeys_from_spec() -> bool {
        true
    }

    open spec fn from_spec(var: ZEBRASymbolicVal) -> Self {
        ZEBRASymbolicExpr::Variable(var)
    }
}

impl Default for ZEBRASymbolicExpr {
    /// The constant zero.
    fn default() -> (r: Self)
        ensures
            r == ZEBRASymbolicExpr::Constant(AbstractInterval { lo: 0, hi: 0 }),
    {
        ZEBRASymbolicExpr::Constant(AbstractInterval::zero())
    }
}

} // verus!
