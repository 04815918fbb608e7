//! Power sums over a list of points, the raw material of a least-squares fit.

use crate::integer::Integer;
use vstd::prelude::*;

verus! {

/// `x` to the power `k`.
pub open spec fn power(x: int, k: nat) -> int
    decreases k,
{
    if k == 0 {
        1
    } else {
        x * power(x, (k - 1) as nat)
    }
}

/// The sum of `x^k` over the first `n` points.
pub open spec fn moment_upto(points: Seq<(i64, i64)>, k: nat, n: nat) -> int
    decreases n,
{
    if n == 0 {
        0
    } else {
        moment_upto(points, k, (n - 1) as nat) + power(points[n - 1].0 as int, k)
    }
}

/// The sum of `x^k * y` over the first `n` points.
pub open spec fn cross_moment_upto(points: Seq<(i64, i64)>, k: nat, n: nat) -> int
    decreases n,
{
    if n == 0 {
        0
    } else {
        cross_moment_upto(points, k, (n - 1) as nat) + power(points[n - 1].0 as int, k) * (
        points[n - 1].1 as int)
    }
}

pub proof fn lemma_power_small(x: int)
    ensures
        power(x, 0) == 1,
        power(x, 1) == x,
        power(x, 2) == x * x,
        power(x, 3) == x * (x * x),
        power(x, 4) == x * (x * (x * x)),
{
    reveal_with_fuel(power, 5);
    assert(x * 1 == x) by (nonlinear_arith);
}

/// The number of points is their moment of order zero.
pub proof fn lemma_moment_zero_is_count(points: Seq<(i64, i64)>, n: nat)
    ensures
        moment_upto(points, 0, n) == n,
    decreases n,
{
    if n > 0 {
        lemma_moment_zero_is_count(points, (n - 1) as nat);
    }
}

/// The power sums that a fit of degree two or less reads, as numbers: `s[k]` is the sum of
/// `x^k`, `t[k]` the sum of `x^k * y`.
pub struct PowerSums {
    pub s0: int,
    pub s1: int,
    pub s2: int,
    pub s3: int,
    pub s4: int,
    pub t0: int,
    pub t1: int,
    pub t2: int,
}

/// The power sums of the first `n` points.
pub open spec fn power_sums_upto(points: Seq<(i64, i64)>, n: nat) -> PowerSums {
    PowerSums {
        s0: moment_upto(points, 0, n),
        s1: moment_upto(points, 1, n),
        s2: moment_upto(points, 2, n),
        s3: moment_upto(points, 3, n),
        s4: moment_upto(points, 4, n),
        t0: cross_moment_upto(points, 0, n),
        t1: cross_moment_upto(points, 1, n),
        t2: cross_moment_upto(points, 2, n),
    }
}

/// The power sums of all the points.
pub open spec fn power_sums(points: Seq<(i64, i64)>) -> PowerSums {
    power_sums_upto(points, points.len())
}

/// The power sums of a list of points, computed.
pub struct Moments {
    pub s0: Integer,
    pub s1: Integer,
    pub s2: Integer,
    pub s3: Integer,
    pub s4: Integer,
    pub t0: Integer,
    pub t1: Integer,
    pub t2: Integer,
}

impl View for Moments {
    type V = PowerSums;

    open spec fn view(&self) -> PowerSums {
        PowerSums {
            s0: self.s0@,
            s1: self.s1@,
            s2: self.s2@,
            s3: self.s3@,
            s4: self.s4@,
            t0: self.t0@,
            t1: self.t1@,
            t2: self.t2@,
        }
    }
}

impl Moments {
    /// The power sums of the points.
    pub fn of(points: &Vec<(i64, i64)>) -> (m: Moments)
        ensures
            m@ == power_sums(points@),
    {
        let mut m = Moments {
            s0: Integer::zero(),
            s1: Integer::zero(),
            s2: Integer::zero(),
            s3: Integer::zero(),
            s4: Integer::zero(),
            t0: Integer::zero(),
            t1: Integer::zero(),
            t2: Integer::zero(),
        };
        let mut i: usize = 0;
        while i < points.len()
            invariant
                i <= points.len(),
                m@ == power_sums_upto(points@, i as nat),
            decreases points.len() - i,
        {
            let x = Integer::from_i64(points[i].0);
            let y = Integer::from_i64(points[i].1);
            let x2 = x.mul(&x);
            let x3 = x.mul(&x2);
            let x4 = x.mul(&x3);
            proof {
                lemma_power_small(x@);
                assert(1 * y@ == y@) by (nonlinear_arith);
            }
            m = Moments {
                s0: m.s0.add(&Integer::from_i64(1)),
                s1: m.s1.add(&x),
                s2: m.s2.add(&x2),
                s3: m.s3.add(&x3),
                s4: m.s4.add(&x4),
                t0: m.t0.add(&y),
                t1: m.t1.add(&x.mul(&y)),
                t2: m.t2.add(&x2.mul(&y)),
            };
            i += 1;
        }
        m
    }
}

} // verus!
