//! Integers of any size: a sign and a magnitude.

use crate::natural::Natural;
use vstd::prelude::*;

verus! {

/// An integer of any size.
#[derive(Debug)]
pub struct Integer {
    negative: bool,
    magnitude: Natural,
}

impl View for Integer {
    type V = int;

    closed spec fn view(&self) -> int {
        if self.negative {
            -(self.magnitude@ as int)
        } else {
            self.magnitude@ as int
        }
    }
}

impl Integer {
    /// The number zero.
    pub fn zero() -> (r: Integer)
        ensures
            r@ == 0,
    {
        Integer { negative: false, magnitude: Natural::zero() }
    }

    /// The number `x`.
    pub fn from_i64(x: i64) -> (r: Integer)
        ensures
            r@ == x,
    {
        if x >= 0 {
            Integer { negative: false, magnitude: Natural::from_u64(x as u64) }
        } else {
            let m: u64 = (-(x + 1)) as u64 + 1;
            Integer { negative: true, magnitude: Natural::from_u64(m) }
        }
    }

    /// The number `x`.
    pub fn from_u64(x: u64) -> (r: Integer)
        ensures
            r@ == x,
    {
        Integer { negative: false, magnitude: Natural::from_u64(x) }
    }

    /// The integer with the given magnitude, below zero where `negative` is set.
    pub fn from_parts(negative: bool, magnitude: Natural) -> (r: Integer)
        ensures
            r@ == (if negative {
                -(magnitude@ as int)
            } else {
                magnitude@ as int
            }),
    {
        Integer { negative, magnitude }
    }

    /// A second copy of the number.
    pub fn duplicate(&self) -> (r: Integer)
        ensures
            r@ == self@,
    {
        Integer { negative: self.negative, magnitude: self.magnitude.duplicate() }
    }

    /// The absolute value of the number.
    pub fn magnitude(&self) -> (r: Natural)
        ensures
            r@ == (if self@ < 0 {
                -self@
            } else {
                self@
            }),
    {
        self.magnitude.duplicate()
    }

    /// Whether the number is zero.
    pub fn is_zero(&self) -> (r: bool)
        ensures
            r == (self@ == 0),
    {
        self.magnitude.is_zero()
    }

    /// Whether the number is below zero.
    pub fn is_negative(&self) -> (r: bool)
        ensures
            r == (self@ < 0),
    {
        self.negative && !self.magnitude.is_zero()
    }

    /// The number with its sign turned.
    pub fn neg(&self) -> (r: Integer)
        ensures
            r@ == -self@,
    {
        Integer { negative: !self.negative, magnitude: self.magnitude.duplicate() }
    }

    /// The sum of two numbers.
    pub fn add(&self, other: &Integer) -> (r: Integer)
        ensures
            r@ == self@ + other@,
    {
        if self.negative == other.negative {
            Integer { negative: self.negative, magnitude: self.magnitude.add(&other.magnitude) }
        } else if self.magnitude.order(&other.magnitude) >= 0 {
            Integer { negative: self.negative, magnitude: self.magnitude.sub(&other.magnitude) }
        } else {
            Integer { negative: other.negative, magnitude: other.magnitude.sub(&self.magnitude) }
        }
    }

    /// The difference of two numbers.
    pub fn sub(&self, other: &Integer) -> (r: Integer)
        ensures
            r@ == self@ - other@,
    {
        let turned = other.neg();
        self.add(&turned)
    }

    /// The product of two numbers.
    pub fn mul(&self, other: &Integer) -> (r: Integer)
        ensures
            r@ == self@ * other@,
    {
        let magnitude = self.magnitude.mul(&other.magnitude);
        proof {
            let a: int = self.magnitude@ as int;
            let b: int = other.magnitude@ as int;
            assert((-a) * b == -(a * b)) by (nonlinear_arith);
            assert(a * (-b) == -(a * b)) by (nonlinear_arith);
            assert((-a) * (-b) == a * b) by (nonlinear_arith);
        }
        Integer { negative: self.negative != other.negative, magnitude }
    }

    /// Whether two numbers are equal.
    pub fn equals(&self, other: &Integer) -> (r: bool)
        ensures
            r == (self@ == other@),
    {
        self.sub(other).is_zero()
    }

    /// Whether the number is smaller than another.
    pub fn less_than(&self, other: &Integer) -> (r: bool)
        ensures
            r == (self@ < other@),
    {
        self.sub(other).is_negative()
    }
}

} // verus!
