//! Exact fractions: an integer over a natural number that is not zero.

use crate::integer::Integer;
use crate::natural::Natural;
use vstd::prelude::*;

verus! {

/// The real number `n / d`.
pub open spec fn quotient(n: int, d: int) -> real {
    n as real / d as real
}

pub proof fn lemma_quotient_sum(n1: int, d1: int, n2: int, d2: int)
    by (nonlinear_arith)
    requires
        d1 != 0,
        d2 != 0,
    ensures
        (n1 * d2 + n2 * d1) as real / (d1 * d2) as real == n1 as real / d1 as real + n2 as real
            / d2 as real,
{
}

pub proof fn lemma_quotient_product(n1: int, d1: int, n2: int, d2: int)
    by (nonlinear_arith)
    requires
        d1 != 0,
        d2 != 0,
    ensures
        (n1 * n2) as real / (d1 * d2) as real == (n1 as real / d1 as real) * (n2 as real
            / d2 as real),
{
}

pub proof fn lemma_quotient_ratio(n1: int, d1: int, n2: int, d2: int)
    by (nonlinear_arith)
    requires
        d1 != 0,
        d2 != 0,
        n2 != 0,
    ensures
        (n1 * d2) as real / (d1 * n2) as real == (n1 as real / d1 as real) / (n2 as real
            / d2 as real),
{
}

pub proof fn lemma_quotient_negated(n: int, d: int)
    by (nonlinear_arith)
    requires
        d != 0,
    ensures
        (-n) as real / d as real == -(n as real / d as real),
        (-n) as real / (-d) as real == n as real / d as real,
        n as real / (-d) as real == -(n as real / d as real),
{
}

pub proof fn lemma_quotient_order(n1: int, d1: int, n2: int, d2: int)
    by (nonlinear_arith)
    requires
        d1 > 0,
        d2 > 0,
    ensures
        (n1 as real / d1 as real == n2 as real / d2 as real) <==> n1 * d2 == n2 * d1,
        (n1 as real / d1 as real) < (n2 as real / d2 as real) <==> n1 * d2 < n2 * d1,
{
}

pub proof fn lemma_quotient_at_most(n1: int, d1: int, n2: int, d2: int)
    by (nonlinear_arith)
    requires
        d1 > 0,
        d2 > 0,
    ensures
        (n1 as real / d1 as real) <= (n2 as real / d2 as real) <==> n1 * d2 <= n2 * d1,
{
}

pub proof fn lemma_quotient_sign(n: int, d: int)
    by (nonlinear_arith)
    requires
        d > 0,
    ensures
        (n as real / d as real == 0real) <==> n == 0,
        (n as real / d as real) < 0real <==> n < 0,
        n as real / 1 as real == n as real,
{
}

/// An exact fraction. Its view is the real number that it stands for.
#[derive(Debug)]
pub struct Rational {
    num: Integer,
    den: Natural,
}

impl View for Rational {
    type V = real;

    closed spec fn view(&self) -> real {
        quotient(self.num@, self.den@ as int)
    }
}

impl Rational {
    #[verifier::type_invariant]
    spec fn well_formed(self) -> bool {
        self.den@ > 0
    }

    /// The fraction `num / den`.
    pub fn new(num: Integer, den: Integer) -> (r: Rational)
        requires
            den@ != 0,
        ensures
            r@ == quotient(num@, den@),
    {
        proof {
            lemma_quotient_negated(num@, den@);
        }
        if den.is_negative() {
            Rational { num: num.neg(), den: den.magnitude() }
        } else {
            Rational { num, den: den.magnitude() }
        }
    }

    /// The whole number `n` as a fraction.
    pub fn from_integer(n: Integer) -> (r: Rational)
        ensures
            r@ == n@ as real,
    {
        proof {
            lemma_quotient_sign(n@, 1);
        }
        Rational { num: n, den: Natural::from_u64(1) }
    }

    /// The whole number `n` as a fraction.
    pub fn from_i64(n: i64) -> (r: Rational)
        ensures
            r@ == n as real,
    {
        Rational::from_integer(Integer::from_i64(n))
    }

    /// The fraction `num / den` of two machine integers.
    pub fn from_ratio(num: i64, den: i64) -> (r: Rational)
        requires
            den != 0,
        ensures
            r@ == quotient(num as int, den as int),
    {
        Rational::new(Integer::from_i64(num), Integer::from_i64(den))
    }

    /// A second copy of the fraction.
    pub fn duplicate(&self) -> (r: Rational)
        ensures
            r@ == self@,
    {
        proof {
            use_type_invariant(self);
        }
        Rational { num: self.num.duplicate(), den: self.den.duplicate() }
    }

    /// A numerator of the fraction: the one that goes with `denominator`.
    pub fn numerator(&self) -> (r: Integer)
        ensures
            self@ == quotient(r@, self.denominator_value() as int),
    {
        self.num.duplicate()
    }

    /// The denominator that the fraction is held with; it is above zero.
    pub fn denominator(&self) -> (r: Natural)
        ensures
            r@ == self.denominator_value(),
            r@ > 0,
    {
        proof {
            use_type_invariant(self);
        }
        self.den.duplicate()
    }

    /// The denominator that the fraction is held with.
    pub closed spec fn denominator_value(&self) -> nat {
        self.den@
    }

    /// Whether the fraction is zero.
    pub fn is_zero(&self) -> (r: bool)
        ensures
            r == (self@ == 0real),
    {
        proof {
            use_type_invariant(self);
            lemma_quotient_sign(self.num@, self.den@ as int);
        }
        self.num.is_zero()
    }

    /// Whether the fraction is below zero.
    pub fn is_negative(&self) -> (r: bool)
        ensures
            r == (self@ < 0real),
    {
        proof {
            use_type_invariant(self);
            lemma_quotient_sign(self.num@, self.den@ as int);
        }
        self.num.is_negative()
    }

    /// The fraction with its sign turned.
    pub fn neg(&self) -> (r: Rational)
        ensures
            r@ == -self@,
    {
        proof {
            use_type_invariant(self);
            lemma_quotient_negated(self.num@, self.den@ as int);
        }
        Rational { num: self.num.neg(), den: self.den.duplicate() }
    }

    /// The sum of two fractions.
    pub fn add(&self, other: &Rational) -> (r: Rational)
        ensures
            r@ == self@ + other@,
    {
        proof {
            use_type_invariant(self);
            use_type_invariant(other);
            lemma_quotient_sum(self.num@, self.den@ as int, other.num@, other.den@ as int);
            assert(self.den@ * other.den@ > 0) by (nonlinear_arith)
                requires
                    self.den@ > 0,
                    other.den@ > 0,
            ;
        }
        let left = self.num.mul(&Integer::from_parts(false, other.den.duplicate()));
        let right = other.num.mul(&Integer::from_parts(false, self.den.duplicate()));
        Rational { num: left.add(&right), den: self.den.mul(&other.den) }
    }

    /// The difference of two fractions.
    pub fn sub(&self, other: &Rational) -> (r: Rational)
        ensures
            r@ == self@ - other@,
    {
        let turned = other.neg();
        self.add(&turned)
    }

    /// The product of two fractions.
    pub fn mul(&self, other: &Rational) -> (r: Rational)
        ensures
            r@ == self@ * other@,
    {
        proof {
            use_type_invariant(self);
            use_type_invariant(other);
            lemma_quotient_product(self.num@, self.den@ as int, other.num@, other.den@ as int);
            assert(self.den@ * other.den@ > 0) by (nonlinear_arith)
                requires
                    self.den@ > 0,
                    other.den@ > 0,
            ;
        }
        Rational { num: self.num.mul(&other.num), den: self.den.mul(&other.den) }
    }

    /// The quotient of two fractions, the second not zero.
    pub fn div(&self, other: &Rational) -> (r: Rational)
        requires
            other@ != 0real,
        ensures
            r@ == self@ / other@,
    {
        proof {
            use_type_invariant(self);
            use_type_invariant(other);
            lemma_quotient_sign(other.num@, other.den@ as int);
            lemma_quotient_ratio(self.num@, self.den@ as int, other.num@, other.den@ as int);
            assert(self.den@ * other.num@ != 0) by (nonlinear_arith)
                requires
                    self.den@ > 0,
                    other.num@ != 0,
            ;
        }
        let num = self.num.mul(&Integer::from_parts(false, other.den.duplicate()));
        let den = Integer::from_parts(false, self.den.duplicate()).mul(&other.num);
        Rational::new(num, den)
    }

    /// Whether two fractions stand for the same number.
    pub fn equals(&self, other: &Rational) -> (r: bool)
        ensures
            r == (self@ == other@),
    {
        proof {
            use_type_invariant(self);
            use_type_invariant(other);
            lemma_quotient_order(self.num@, self.den@ as int, other.num@, other.den@ as int);
        }
        let left = self.num.mul(&Integer::from_parts(false, other.den.duplicate()));
        let right = other.num.mul(&Integer::from_parts(false, self.den.duplicate()));
        left.equals(&right)
    }

    /// Whether the fraction is smaller than another.
    pub fn less_than(&self, other: &Rational) -> (r: bool)
        ensures
            r == (self@ < other@),
    {
        proof {
            use_type_invariant(self);
            use_type_invariant(other);
            lemma_quotient_order(self.num@, self.den@ as int, other.num@, other.den@ as int);
        }
        let left = self.num.mul(&Integer::from_parts(false, other.den.duplicate()));
        let right = other.num.mul(&Integer::from_parts(false, self.den.duplicate()));
        left.less_than(&right)
    }
}

} // verus!
