//! The normal equations of a polynomial fit of degree two or less, solved by determinants.
//!
//! The system always has three rows and columns. For a degree below two the rows and
//! columns past the degree are those of the unit matrix, and the right-hand side is zero
//! there, so the unknowns past the degree come out as zero.

use crate::integer::Integer;
use crate::moments::Moments;
use crate::moments::PowerSums;
use vstd::prelude::*;

verus! {

/// The kind of polynomial that is fitted.
#[derive(Clone, Copy, Debug, PartialEq, Eq, Structural)]
pub enum Type {
    Constant,
    Linear,
    Quadratic,
}

impl Type {
    /// The degree of the polynomial.
    pub open spec fn spec_degree(self) -> nat {
        match self {
            Type::Constant => 0,
            Type::Linear => 1,
            Type::Quadratic => 2,
        }
    }

    /// The degree of the polynomial.
    pub fn degree(self) -> (d: usize)
        ensures
            d == self.spec_degree(),
    {
        match self {
            Type::Constant => 0,
            Type::Linear => 1,
            Type::Quadratic => 2,
        }
    }
}

/// The determinant of the matrix with rows `(a, b, c)`, `(d, e, f)`, `(g, h, i)`.
pub open spec fn det3(a: int, b: int, c: int, d: int, e: int, f: int, g: int, h: int, i: int) -> int {
    a * (e * i - f * h) - b * (d * i - f * g) + c * (d * h - e * g)
}

/// The sum of `x^k`, for `k` up to four.
pub open spec fn sum_of_order(q: PowerSums, k: nat) -> int {
    if k == 0 {
        q.s0
    } else if k == 1 {
        q.s1
    } else if k == 2 {
        q.s2
    } else if k == 3 {
        q.s3
    } else {
        q.s4
    }
}

/// The entry in row `r` and column `c` of the system's matrix for degree `d`.
pub open spec fn entry(q: PowerSums, d: nat, r: nat, c: nat) -> int {
    if r <= d && c <= d {
        sum_of_order(q, r + c)
    } else if r == c {
        1
    } else {
        0
    }
}

/// Row `r` of the system's right-hand side for degree `d`.
pub open spec fn rhs(q: PowerSums, d: nat, r: nat) -> int {
    if r > d {
        0
    } else if r == 0 {
        q.t0
    } else if r == 1 {
        q.t1
    } else {
        q.t2
    }
}

/// The determinant of the system for degree `d`: the denominator of every coefficient.
pub open spec fn denominator(q: PowerSums, d: nat) -> int {
    det3(
        entry(q, d, 0, 0),
        entry(q, d, 0, 1),
        entry(q, d, 0, 2),
        entry(q, d, 1, 0),
        entry(q, d, 1, 1),
        entry(q, d, 1, 2),
        entry(q, d, 2, 0),
        entry(q, d, 2, 1),
        entry(q, d, 2, 2),
    )
}

/// The numerator of the coefficient of `x^j`: the determinant of the system with column
/// `j` replaced by the right-hand side.
pub open spec fn numerator(q: PowerSums, d: nat, j: nat) -> int {
    if j == 0 {
        det3(
            rhs(q, d, 0),
            entry(q, d, 0, 1),
            entry(q, d, 0, 2),
            rhs(q, d, 1),
            entry(q, d, 1, 1),
            entry(q, d, 1, 2),
            rhs(q, d, 2),
            entry(q, d, 2, 1),
            entry(q, d, 2, 2),
        )
    } else if j == 1 {
        det3(
            entry(q, d, 0, 0),
            rhs(q, d, 0),
            entry(q, d, 0, 2),
            entry(q, d, 1, 0),
            rhs(q, d, 1),
            entry(q, d, 1, 2),
            entry(q, d, 2, 0),
            rhs(q, d, 2),
            entry(q, d, 2, 2),
        )
    } else {
        det3(
            entry(q, d, 0, 0),
            entry(q, d, 0, 1),
            rhs(q, d, 0),
            entry(q, d, 1, 0),
            entry(q, d, 1, 1),
            rhs(q, d, 1),
            entry(q, d, 2, 0),
            entry(q, d, 2, 1),
            rhs(q, d, 2),
        )
    }
}

/// The determinant of the system without row and column `j`. Over the denominator it is
/// entry `(j, j)` of the inverse of the system's matrix.
pub open spec fn cofactor(q: PowerSums, d: nat, j: nat) -> int {
    if j == 0 {
        entry(q, d, 1, 1) * entry(q, d, 2, 2) - entry(q, d, 1, 2) * entry(q, d, 2, 1)
    } else if j == 1 {
        entry(q, d, 0, 0) * entry(q, d, 2, 2) - entry(q, d, 0, 2) * entry(q, d, 2, 0)
    } else {
        entry(q, d, 0, 0) * entry(q, d, 1, 1) - entry(q, d, 0, 1) * entry(q, d, 1, 0)
    }
}

/// What solving the system gives, as numbers.
pub struct Solved {
    pub n0: int,
    pub n1: int,
    pub n2: int,
    pub den: int,
    pub c0: int,
    pub c1: int,
    pub c2: int,
}

/// The solution of the system for the power sums `q` and degree `d`.
pub open spec fn solved(q: PowerSums, d: nat) -> Solved {
    Solved {
        n0: numerator(q, d, 0),
        n1: numerator(q, d, 1),
        n2: numerator(q, d, 2),
        den: denominator(q, d),
        c0: cofactor(q, d, 0),
        c1: cofactor(q, d, 1),
        c2: cofactor(q, d, 2),
    }
}

/// The solution of the system, computed: the numerators of the three coefficients, their
/// common denominator, and the three cofactors of the diagonal.
pub struct Solution {
    pub n0: Integer,
    pub n1: Integer,
    pub n2: Integer,
    pub den: Integer,
    pub c0: Integer,
    pub c1: Integer,
    pub c2: Integer,
}

impl View for Solution {
    type V = Solved;

    open spec fn view(&self) -> Solved {
        Solved {
            n0: self.n0@,
            n1: self.n1@,
            n2: self.n2@,
            den: self.den@,
            c0: self.c0@,
            c1: self.c1@,
            c2: self.c2@,
        }
    }
}

fn minor(a: &Integer, b: &Integer, c: &Integer, d: &Integer) -> (r: Integer)
    ensures
        r@ == a@ * d@ - b@ * c@,
{
    a.mul(d).sub(&b.mul(c))
}

fn determinant(
    a: &Integer,
    b: &Integer,
    c: &Integer,
    d: &Integer,
    e: &Integer,
    f: &Integer,
    g: &Integer,
    h: &Integer,
    i: &Integer,
) -> (r: Integer)
    ensures
        r@ == det3(a@, b@, c@, d@, e@, f@, g@, h@, i@),
{
    let first = a.mul(&minor(e, f, h, i));
    let second = b.mul(&minor(d, f, g, i));
    let third = c.mul(&minor(d, e, g, h));
    first.sub(&second).add(&third)
}

fn sum_at(m: &Moments, k: usize) -> (r: Integer)
    ensures
        r@ == sum_of_order(m@, k as nat),
{
    if k == 0 {
        m.s0.duplicate()
    } else if k == 1 {
        m.s1.duplicate()
    } else if k == 2 {
        m.s2.duplicate()
    } else if k == 3 {
        m.s3.duplicate()
    } else {
        m.s4.duplicate()
    }
}

fn entry_at(m: &Moments, d: usize, r: usize, c: usize) -> (e: Integer)
    requires
        r <= 2,
        c <= 2,
    ensures
        e@ == entry(m@, d as nat, r as nat, c as nat),
{
    if r <= d && c <= d {
        sum_at(m, r + c)
    } else if r == c {
        Integer::from_i64(1)
    } else {
        Integer::zero()
    }
}

fn rhs_at(m: &Moments, d: usize, r: usize) -> (e: Integer)
    ensures
        e@ == rhs(m@, d as nat, r as nat),
{
    if r > d {
        Integer::zero()
    } else if r == 0 {
        m.t0.duplicate()
    } else if r == 1 {
        m.t1.duplicate()
    } else {
        m.t2.duplicate()
    }
}

/// Solves the normal equations of the fit of kind `kind` for the power sums `m`.
pub fn solve(m: &Moments, kind: Type) -> (s: Solution)
    ensures
        s@ == solved(m@, kind.spec_degree()),
{
    let d: usize = kind.degree();
    let e00 = entry_at(m, d, 0, 0);
    let e01 = entry_at(m, d, 0, 1);
    let e02 = entry_at(m, d, 0, 2);
    let e10 = entry_at(m, d, 1, 0);
    let e11 = entry_at(m, d, 1, 1);
    let e12 = entry_at(m, d, 1, 2);
    let e20 = entry_at(m, d, 2, 0);
    let e21 = entry_at(m, d, 2, 1);
    let e22 = entry_at(m, d, 2, 2);
    let r0 = rhs_at(m, d, 0);
    let r1 = rhs_at(m, d, 1);
    let r2 = rhs_at(m, d, 2);
    Solution {
        n0: determinant(&r0, &e01, &e02, &r1, &e11, &e12, &r2, &e21, &e22),
        n1: determinant(&e00, &r0, &e02, &e10, &r1, &e12, &e20, &r2, &e22),
        n2: determinant(&e00, &e01, &r0, &e10, &e11, &r1, &e20, &e21, &r2),
        den: determinant(&e00, &e01, &e02, &e10, &e11, &e12, &e20, &e21, &e22),
        c0: minor(&e11, &e12, &e21, &e22),
        c1: minor(&e00, &e02, &e20, &e22),
        c2: minor(&e00, &e01, &e10, &e11),
    }
}

} // verus!
