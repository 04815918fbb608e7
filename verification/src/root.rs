//! Square roots to a chosen number of decimal places: what turns a squared error into an
//! error.

use crate::integer::Integer;
use crate::natural::Natural;
use crate::rational::Rational;
use crate::rational::lemma_quotient_at_most;
use crate::rational::lemma_quotient_order;
use crate::rational::lemma_quotient_product;
use crate::rational::lemma_quotient_sign;
use crate::rational::quotient;
use vstd::prelude::*;

verus! {

/// Ten to the power `k`.
pub open spec fn power_of_ten(k: nat) -> nat
    decreases k,
{
    if k == 0 {
        1
    } else {
        10 * power_of_ten((k - 1) as nat)
    }
}

/// Whether `k` is the whole part of the square root of `n / d`: its square is no larger
/// than `n / d`, and the square of the next number is.
pub open spec fn is_whole_root(k: nat, n: nat, d: nat) -> bool {
    k * k * d <= n && n < (k + 1) * (k + 1) * d
}

proof fn lemma_square_grows(a: nat, b: nat, d: nat)
    by (nonlinear_arith)
    requires
        a < b,
        d > 0,
    ensures
        a * a * d < b * b * d,
{
}

/// A fraction has one whole root.
pub proof fn lemma_whole_root_is_one(k: nat, m: nat, n: nat, d: nat)
    requires
        is_whole_root(k, n, d),
        is_whole_root(m, n, d),
        d > 0,
    ensures
        k == m,
{
    if k < m {
        lemma_square_grows(k, m, d);
        if k + 1 < m {
            lemma_square_grows(k + 1, m, d);
        }
    } else if m < k {
        lemma_square_grows(m, k, d);
        if m + 1 < k {
            lemma_square_grows(m + 1, k, d);
        }
    }
}

fn square_times(k: &Natural, d: &Natural) -> (r: Natural)
    ensures
        r@ == k@ * k@ * d@,
{
    k.mul(k).mul(d)
}

/// The whole part of the square root of `n / d`.
pub fn whole_root(n: &Natural, d: &Natural) -> (k: Natural)
    requires
        d@ > 0,
    ensures
        is_whole_root(k@, n@, d@),
{
    let mut powers: Vec<Natural> = Vec::new();
    powers.push(Natural::from_u64(1));
    let mut top = Natural::from_u64(1);
    let mut within: bool = square_times(&top, d).order(n) <= 0;
    while within
        invariant
            within == (top@ * top@ * d@ <= n@),
            d@ > 0,
            powers@.len() >= 1,
            powers@[0]@ == 1,
            top@ == powers@[powers@.len() - 1]@,
            forall|i: int| 0 < i < powers@.len() ==> (#[trigger] powers@[i])@ == 2 * powers@[i - 1]@,
            top@ >= 1,
        decreases
                (if within {
                    n@ + 1 - top@ * top@ * d@
                } else {
                    0
                }),
    {
        let next = top.add(&top);
        proof {
            lemma_square_grows(top@, next@, d@);
        }
        powers.push(next.duplicate());
        top = next;
        within = square_times(&top, d).order(n) <= 0;
    }
    let mut root = Natural::zero();
    let mut i: usize = powers.len() - 1;
    proof {
        assert(0 * 0 * d@ == 0) by (nonlinear_arith);
    }
    while i > 0
        invariant
            i < powers@.len(),
            d@ > 0,
            powers@[0]@ == 1,
            forall|j: int| 0 < j < powers@.len() ==> (#[trigger] powers@[j])@ == 2 * powers@[j - 1]@,
            root@ * root@ * d@ <= n@,
            n@ < (root@ + powers@[i as int]@) * (root@ + powers@[i as int]@) * d@,
        decreases i,
    {
        let step = &powers[i - 1];
        let candidate = root.add(step);
        proof {
            assert(powers@[i as int]@ == 2 * powers@[i - 1]@);
        }
        if square_times(&candidate, d).order(n) <= 0 {
            root = candidate;
        }
        i -= 1;
    }
    root
}

/// Whether `r` is the square root of `s` to `digits` decimal places, rounded down: `r`
/// is a whole number of steps of `1 / 10^digits`, its square is no larger than `s`, and
/// the square of the next such number is.
pub open spec fn is_root_to(r: real, s: real, digits: nat) -> bool {
    exists|k: int|
        k >= 0 && r == #[trigger] quotient(k, power_of_ten(digits) as int) && r * r <= s && s
            < quotient(k + 1, power_of_ten(digits) as int) * quotient(
            k + 1,
            power_of_ten(digits) as int,
        )
}

fn ten_to(digits: u32) -> (p: Natural)
    ensures
        p@ == power_of_ten(digits as nat),
        p@ > 0,
{
    let mut p = Natural::from_u64(1);
    let mut i: u32 = 0;
    while i < digits
        invariant
            i <= digits,
            p@ == power_of_ten(i as nat),
            p@ > 0,
        decreases digits - i,
    {
        p = p.mul_limb(10);
        i += 1;
    }
    p
}

/// The square root of a squared error to `digits` decimal places, rounded down. Below
/// zero there is none.
pub fn standard_error(squared: &Rational, digits: u32) -> (r: Option<Rational>)
    ensures
        r is None <==> squared@ < 0real,
        r is Some ==> is_root_to(r->Some_0@, squared@, digits as nat),
{
    if squared.is_negative() {
        return None;
    }
    let numerator = squared.numerator();
    let n = numerator.magnitude();
    let d = squared.denominator();
    let p = ten_to(digits);
    let scaled = n.mul(&p).mul(&p);
    let k = whole_root(&scaled, &d);
    let root = Rational::new(
        Integer::from_parts(false, k.duplicate()),
        Integer::from_parts(false, p.duplicate()),
    );
    proof {
        let kk: int = k@ as int;
        let nn: int = n@ as int;
        let dd: int = d@ as int;
        let pp: int = p@ as int;
        lemma_quotient_sign(numerator@, dd);
        assert(numerator@ == nn);
        assert(pp * pp > 0) by (nonlinear_arith)
            requires
                pp > 0,
        ;
        assert((kk * kk) * dd == kk * kk * dd);
        assert(nn * (pp * pp) == nn * pp * pp) by (nonlinear_arith);
        assert(((kk + 1) * (kk + 1)) * dd == (kk + 1) * (kk + 1) * dd);
        lemma_quotient_product(kk, pp, kk, pp);
        lemma_quotient_product(kk + 1, pp, kk + 1, pp);
        lemma_quotient_at_most(kk * kk, pp * pp, nn, dd);
        lemma_quotient_order(nn, dd, (kk + 1) * (kk + 1), pp * pp);
        assert(root@ == quotient(kk, pp));
        assert(root@ * root@ <= squared@);
        assert(squared@ < quotient(kk + 1, pp) * quotient(kk + 1, pp));
    }
    Some(root)
}

} // verus!
