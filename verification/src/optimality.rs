//! Why the fitted polynomial is the best one: no polynomial of its degree or less comes
//! closer to the points in the sum of the squared distances.

use crate::algebra::lemma_cramer;
use crate::algebra::lemma_det3_zero_row;
use crate::algebra::lemma_distribute;
use crate::algebra::lemma_real_difference_of_squares;
use crate::algebra::lemma_real_distribute;
use crate::algebra::lemma_real_divided;
use crate::algebra::lemma_real_no_zero_divisors;
use crate::algebra::lemma_real_of_product;
use crate::algebra::lemma_real_reorder;
use crate::algebra::lemma_real_square_of_sum;
use crate::algebra::lemma_real_zero_product;
use crate::existence::different_values;
use crate::existence::lemma_different_times_determine_the_fit;
use crate::existence::lemma_different_values_determine_the_fit;
use crate::existence::times_rise;
use crate::moments::cross_moment_upto;
use crate::moments::lemma_power_small;
use crate::moments::moment_upto;
use crate::moments::power;
use crate::moments::power_sums;
use crate::rational::quotient;
use crate::regression::coefficient;
use crate::regression::residual_sum;
use crate::regression::scaled_residual;
use crate::regression::scaled_residual_sum_upto;
use crate::solve::denominator;
use crate::solve::entry;
use crate::solve::numerator;
use crate::solve::rhs;
use vstd::prelude::*;

verus! {

/// The sum over the first `n` points of the scaled residual times `x^k`.
pub open spec fn residual_moment_upto(
    points: Seq<(i64, i64)>,
    den: int,
    n0: int,
    n1: int,
    n2: int,
    k: nat,
    n: nat,
) -> int
    decreases n,
{
    if n == 0 {
        0
    } else {
        residual_moment_upto(points, den, n0, n1, n2, k, (n - 1) as nat) + scaled_residual(
            den,
            n0,
            n1,
            n2,
            points[n - 1].0 as int,
            points[n - 1].1 as int,
        ) * power(points[n - 1].0 as int, k)
    }
}

proof fn lemma_residual_term(den: int, n0: int, n1: int, n2: int, x: int, y: int, p: int)
    ensures
        scaled_residual(den, n0, n1, n2, x, y) * p == den * (p * y) - (p * n0 + (x * p) * n1 + (x
            * (x * p)) * n2),
{
    lemma_distribute(p, den * y, n0 + n1 * x + n2 * (x * x));
    lemma_distribute(p, n0 + n1 * x, n2 * (x * x));
    lemma_distribute(p, n0, n1 * x);
    assert((den * y) * p == den * (p * y)) by (nonlinear_arith);
    assert(n0 * p == p * n0) by (nonlinear_arith);
    assert((n1 * x) * p == (x * p) * n1) by (nonlinear_arith);
    assert((n2 * (x * x)) * p == (x * (x * p)) * n2) by (nonlinear_arith);
}

/// The sum of the scaled residuals times `x^k` is a combination of the power sums.
pub proof fn lemma_residual_moment(
    points: Seq<(i64, i64)>,
    den: int,
    n0: int,
    n1: int,
    n2: int,
    k: nat,
    n: nat,
)
    ensures
        residual_moment_upto(points, den, n0, n1, n2, k, n) == den * cross_moment_upto(
            points,
            k,
            n,
        ) - (moment_upto(points, k, n) * n0 + moment_upto(points, k + 1, n) * n1 + moment_upto(
            points,
            k + 2,
            n,
        ) * n2),
    decreases n,
{
    if n == 0 {
        assert(den * 0 == 0) by (nonlinear_arith);
        assert(0 * n0 == 0) by (nonlinear_arith);
        assert(0 * n1 == 0) by (nonlinear_arith);
        assert(0 * n2 == 0) by (nonlinear_arith);
    } else {
        let m = (n - 1) as nat;
        lemma_residual_moment(points, den, n0, n1, n2, k, m);
        let x: int = points[n - 1].0 as int;
        let y: int = points[n - 1].1 as int;
        let p: int = power(x, k);
        assert(power(x, k + 1) == x * p);
        assert(power(x, k + 2) == x * (x * p)) by {
            assert(power(x, k + 2) == x * power(x, k + 1));
        }
        lemma_residual_term(den, n0, n1, n2, x, y, p);
        lemma_distribute(den, cross_moment_upto(points, k, m), p * y);
        lemma_distribute(n0, moment_upto(points, k, m), p);
        lemma_distribute(n1, moment_upto(points, k + 1, m), x * p);
        lemma_distribute(n2, moment_upto(points, k + 2, m), x * (x * p));
    }
}

/// The numerators of the coefficients past the degree are zero.
pub proof fn lemma_unused_numerators(points: Seq<(i64, i64)>, d: nat)
    ensures
        d < 2 ==> numerator(power_sums(points), d, 2) == 0,
        d < 1 ==> numerator(power_sums(points), d, 1) == 0,
{
    let q = power_sums(points);
    if d < 2 {
        lemma_det3_zero_row(
            entry(q, d, 0, 0),
            entry(q, d, 0, 1),
            rhs(q, d, 0),
            entry(q, d, 1, 0),
            entry(q, d, 1, 1),
            rhs(q, d, 1),
        );
    }
    if d < 1 {
        lemma_det3_zero_row(
            entry(q, d, 0, 0),
            rhs(q, d, 0),
            entry(q, d, 0, 2),
            entry(q, d, 2, 0),
            rhs(q, d, 2),
            entry(q, d, 2, 2),
        );
    }
}

/// The normal equations: for every power `k` up to the degree, the residuals of the
/// fitted polynomial, each times `x^k`, sum to zero.
pub proof fn lemma_normal_equations(points: Seq<(i64, i64)>, d: nat, k: nat)
    requires
        k <= d <= 2,
    ensures
        residual_moment_upto(
            points,
            denominator(power_sums(points), d),
            numerator(power_sums(points), d, 0),
            numerator(power_sums(points), d, 1),
            numerator(power_sums(points), d, 2),
            k,
            points.len(),
        ) == 0,
{
    let q = power_sums(points);
    let n0 = numerator(q, d, 0);
    let n1 = numerator(q, d, 1);
    let n2 = numerator(q, d, 2);
    lemma_residual_moment(points, denominator(q, d), n0, n1, n2, k, points.len());
    lemma_cramer(
        entry(q, d, 0, 0),
        entry(q, d, 0, 1),
        entry(q, d, 0, 2),
        entry(q, d, 1, 0),
        entry(q, d, 1, 1),
        entry(q, d, 1, 2),
        entry(q, d, 2, 0),
        entry(q, d, 2, 1),
        entry(q, d, 2, 2),
        rhs(q, d, 0),
        rhs(q, d, 1),
        rhs(q, d, 2),
    );
    lemma_unused_numerators(points, d);
    let s1 = moment_upto(points, k + 1, points.len());
    let s2 = moment_upto(points, k + 2, points.len());
    if d < 2 {
        assert(s2 * n2 == 0) by (nonlinear_arith)
            requires
                n2 == 0,
        ;
        assert(entry(q, d, k, 2) * n2 == 0) by (nonlinear_arith)
            requires
                n2 == 0,
        ;
    }
    if d < 1 {
        assert(s1 * n1 == 0) by (nonlinear_arith)
            requires
                n1 == 0,
        ;
        assert(entry(q, d, k, 1) * n1 == 0) by (nonlinear_arith)
            requires
                n1 == 0,
        ;
    }
}

/// The value at the whole number `x` of the polynomial `c0 + c1 x + c2 x^2` with real
/// coefficients.
pub open spec fn real_quadratic(c0: real, c1: real, c2: real, x: int) -> real {
    c0 + c1 * (x as real) + c2 * ((x * x) as real)
}

/// The distance from `y` to the polynomial `c0 + c1 x + c2 x^2` at `x`.
pub open spec fn residual(c0: real, c1: real, c2: real, x: int, y: int) -> real {
    y as real - real_quadratic(c0, c1, c2, x)
}

/// The sum over the first `n` points of the squared distance from `y` to the polynomial
/// `c0 + c1 x + c2 x^2` at `x`.
pub open spec fn residual_square_sum_upto(
    points: Seq<(i64, i64)>,
    c0: real,
    c1: real,
    c2: real,
    n: nat,
) -> real
    decreases n,
{
    if n == 0 {
        0real
    } else {
        residual_square_sum_upto(points, c0, c1, c2, (n - 1) as nat) + residual(
            c0,
            c1,
            c2,
            points[n - 1].0 as int,
            points[n - 1].1 as int,
        ) * residual(c0, c1, c2, points[n - 1].0 as int, points[n - 1].1 as int)
    }
}

/// The sum over all points of the squared distance from `y` to the polynomial
/// `c0 + c1 x + c2 x^2` at `x`.
pub open spec fn residual_square_sum(points: Seq<(i64, i64)>, c0: real, c1: real, c2: real) -> real {
    residual_square_sum_upto(points, c0, c1, c2, points.len())
}

/// The sum over the first `n` points of the residual times `x^k`.
pub open spec fn real_residual_moment_upto(
    points: Seq<(i64, i64)>,
    c0: real,
    c1: real,
    c2: real,
    k: nat,
    n: nat,
) -> real
    decreases n,
{
    if n == 0 {
        0real
    } else {
        real_residual_moment_upto(points, c0, c1, c2, k, (n - 1) as nat) + residual(
            c0,
            c1,
            c2,
            points[n - 1].0 as int,
            points[n - 1].1 as int,
        ) * (power(points[n - 1].0 as int, k) as real)
    }
}

/// The sum over the first `n` points of the square of `h0 + h1 x + h2 x^2`.
pub open spec fn real_quadratic_square_sum_upto(
    points: Seq<(i64, i64)>,
    h0: real,
    h1: real,
    h2: real,
    n: nat,
) -> real
    decreases n,
{
    if n == 0 {
        0real
    } else {
        real_quadratic_square_sum_upto(points, h0, h1, h2, (n - 1) as nat) + real_quadratic(
            h0,
            h1,
            h2,
            points[n - 1].0 as int,
        ) * real_quadratic(h0, h1, h2, points[n - 1].0 as int)
    }
}

proof fn lemma_scaled_is_residual(den: int, n0: int, n1: int, n2: int, x: int, y: int)
    requires
        den != 0,
    ensures
        scaled_residual(den, n0, n1, n2, x, y) as real == (den as real) * residual(
            quotient(n0, den),
            quotient(n1, den),
            quotient(n2, den),
            x,
            y,
        ),
{
    let d = den as real;
    let xr = x as real;
    let xx = (x * x) as real;
    let b0 = quotient(n0, den);
    let b1 = quotient(n1, den);
    let b2 = quotient(n2, den);
    lemma_real_of_product(den, y);
    lemma_real_of_product(n1, x);
    lemma_real_of_product(n2, x * x);
    lemma_real_divided(n0 as real, d);
    lemma_real_divided(n1 as real, d);
    lemma_real_divided(n2 as real, d);
    lemma_real_distribute(d, y as real, b0 + b1 * xr + b2 * xx);
    lemma_real_distribute(d, b0 + b1 * xr, b2 * xx);
    lemma_real_distribute(d, b0, b1 * xr);
    lemma_real_reorder(d, b1, xr);
    lemma_real_reorder(d, b2, xx);
}

proof fn lemma_scaled_sum_is_residual_sum(
    points: Seq<(i64, i64)>,
    den: int,
    n0: int,
    n1: int,
    n2: int,
    n: nat,
)
    requires
        den != 0,
    ensures
        scaled_residual_sum_upto(points, den, n0, n1, n2, n) as real == ((den as real) * (
        den as real)) * residual_square_sum_upto(
            points,
            quotient(n0, den),
            quotient(n1, den),
            quotient(n2, den),
            n,
        ),
    decreases n,
{
    let d = den as real;
    let b0 = quotient(n0, den);
    let b1 = quotient(n1, den);
    let b2 = quotient(n2, den);
    if n > 0 {
        let m = (n - 1) as nat;
        lemma_scaled_sum_is_residual_sum(points, den, n0, n1, n2, m);
        let x: int = points[n - 1].0 as int;
        let y: int = points[n - 1].1 as int;
        let r = scaled_residual(den, n0, n1, n2, x, y);
        let rho = residual(b0, b1, b2, x, y);
        lemma_scaled_is_residual(den, n0, n1, n2, x, y);
        lemma_real_of_product(r, r);
        lemma_real_reorder(d, rho, rho);
        lemma_real_distribute(d * d, residual_square_sum_upto(points, b0, b1, b2, m), rho * rho);
    }
}

proof fn lemma_scaled_moment_is_residual_moment(
    points: Seq<(i64, i64)>,
    den: int,
    n0: int,
    n1: int,
    n2: int,
    k: nat,
    n: nat,
)
    requires
        den != 0,
    ensures
        residual_moment_upto(points, den, n0, n1, n2, k, n) as real == (den as real)
            * real_residual_moment_upto(
            points,
            quotient(n0, den),
            quotient(n1, den),
            quotient(n2, den),
            k,
            n,
        ),
    decreases n,
{
    let d = den as real;
    let b0 = quotient(n0, den);
    let b1 = quotient(n1, den);
    let b2 = quotient(n2, den);
    if n > 0 {
        let m = (n - 1) as nat;
        lemma_scaled_moment_is_residual_moment(points, den, n0, n1, n2, k, m);
        let x: int = points[n - 1].0 as int;
        let y: int = points[n - 1].1 as int;
        let r = scaled_residual(den, n0, n1, n2, x, y);
        let rho = residual(b0, b1, b2, x, y);
        let p = power(x, k);
        lemma_scaled_is_residual(den, n0, n1, n2, x, y);
        lemma_real_of_product(r, p);
        lemma_real_reorder(d, rho, p as real);
        lemma_real_distribute(
            d,
            real_residual_moment_upto(points, b0, b1, b2, k, m),
            rho * (p as real),
        );
    }
}

proof fn lemma_residual_of_another(
    b0: real,
    b1: real,
    b2: real,
    g0: real,
    g1: real,
    g2: real,
    x: int,
    y: int,
)
    ensures
        residual(g0, g1, g2, x, y) == residual(b0, b1, b2, x, y) + real_quadratic(
            b0 - g0,
            b1 - g1,
            b2 - g2,
            x,
        ),
{
    lemma_real_distribute(x as real, b1, g1);
    lemma_real_distribute((x * x) as real, b2, g2);
}

proof fn lemma_real_cross_term(rho: real, h0: real, h1: real, h2: real, x: int)
    ensures
        rho * real_quadratic(h0, h1, h2, x) == h0 * (rho * (power(x, 0) as real)) + h1 * (rho * (
        power(x, 1) as real)) + h2 * (rho * (power(x, 2) as real)),
{
    let xr = x as real;
    let xx = (x * x) as real;
    lemma_power_small(x);
    lemma_real_distribute(rho, h0 + h1 * xr, h2 * xx);
    lemma_real_distribute(rho, h0, h1 * xr);
    lemma_real_reorder(rho, h1, xr);
    lemma_real_reorder(rho, h2, xx);
    lemma_real_reorder(rho, h0, 1real);
}

/// The residual sum of a second polynomial against that of a first: the two differ by
/// a sum of squares and by the sums of the residuals of the first, each times a power of
/// `x`.
proof fn lemma_real_residual_sums(
    points: Seq<(i64, i64)>,
    b0: real,
    b1: real,
    b2: real,
    g0: real,
    g1: real,
    g2: real,
    n: nat,
)
    ensures
        residual_square_sum_upto(points, g0, g1, g2, n) == residual_square_sum_upto(
            points,
            b0,
            b1,
            b2,
            n,
        ) + 2real * ((b0 - g0) * real_residual_moment_upto(points, b0, b1, b2, 0, n) + (b1 - g1)
            * real_residual_moment_upto(points, b0, b1, b2, 1, n) + (b2 - g2)
            * real_residual_moment_upto(points, b0, b1, b2, 2, n)) + real_quadratic_square_sum_upto(
            points,
            b0 - g0,
            b1 - g1,
            b2 - g2,
            n,
        ),
        real_quadratic_square_sum_upto(points, b0 - g0, b1 - g1, b2 - g2, n) >= 0real,
    decreases n,
{
    let h0 = b0 - g0;
    let h1 = b1 - g1;
    let h2 = b2 - g2;
    if n == 0 {
        assert(h0 * 0real == 0real);
        assert(h1 * 0real == 0real);
        assert(h2 * 0real == 0real);
    } else {
        let m = (n - 1) as nat;
        lemma_real_residual_sums(points, b0, b1, b2, g0, g1, g2, m);
        let x: int = points[n - 1].0 as int;
        let y: int = points[n - 1].1 as int;
        let rho = residual(b0, b1, b2, x, y);
        let q = real_quadratic(h0, h1, h2, x);
        let m0 = real_residual_moment_upto(points, b0, b1, b2, 0, m);
        let m1 = real_residual_moment_upto(points, b0, b1, b2, 1, m);
        let m2 = real_residual_moment_upto(points, b0, b1, b2, 2, m);
        let t0 = rho * (power(x, 0) as real);
        let t1 = rho * (power(x, 1) as real);
        let t2 = rho * (power(x, 2) as real);
        lemma_residual_of_another(b0, b1, b2, g0, g1, g2, x, y);
        lemma_real_square_of_sum(rho, q);
        lemma_real_cross_term(rho, h0, h1, h2, x);
        lemma_real_distribute(h0, m0, t0);
        lemma_real_distribute(h1, m1, t1);
        lemma_real_distribute(h2, m2, t2);
    }
}

/// The fitted polynomial is the least-squares fit: where the fit exists, no polynomial
/// of its degree or less, whatever real numbers its coefficients are, has a smaller sum
/// of squared residuals.
pub proof fn lemma_fit_is_least_squares(
    points: Seq<(i64, i64)>,
    d: nat,
    g0: real,
    g1: real,
    g2: real,
)
    requires
        d <= 2,
        d < 2 ==> g2 == 0real,
        d < 1 ==> g1 == 0real,
        denominator(power_sums(points), d) != 0,
    ensures
        residual_sum(points, d) == residual_square_sum(
            points,
            coefficient(points, d, 0),
            coefficient(points, d, 1),
            coefficient(points, d, 2),
        ),
        residual_sum(points, d) <= residual_square_sum(points, g0, g1, g2),
{
    let q = power_sums(points);
    let den = denominator(q, d);
    let n0 = numerator(q, d, 0);
    let n1 = numerator(q, d, 1);
    let n2 = numerator(q, d, 2);
    let b0 = coefficient(points, d, 0);
    let b1 = coefficient(points, d, 1);
    let b2 = coefficient(points, d, 2);
    let dr = den as real;
    let n = points.len();
    let ours = residual_square_sum_upto(points, b0, b1, b2, n);
    lemma_scaled_sum_is_residual_sum(points, den, n0, n1, n2, n);
    lemma_real_of_product(den, den);
    assert(dr * dr != 0real) by (nonlinear_arith)
        requires
            dr != 0real,
    ;
    lemma_real_divided(ours, dr * dr);
    assert(residual_sum(points, d) == ours);
    let m0 = real_residual_moment_upto(points, b0, b1, b2, 0, n);
    let m1 = real_residual_moment_upto(points, b0, b1, b2, 1, n);
    let m2 = real_residual_moment_upto(points, b0, b1, b2, 2, n);
    lemma_unused_numerators(points, d);
    lemma_normal_equations(points, d, 0);
    lemma_scaled_moment_is_residual_moment(points, den, n0, n1, n2, 0, n);
    lemma_real_divided(m0, dr);
    lemma_real_zero_product(b0 - g0, m0);
    if d >= 1 {
        lemma_normal_equations(points, d, 1);
        lemma_scaled_moment_is_residual_moment(points, den, n0, n1, n2, 1, n);
        lemma_real_divided(m1, dr);
    } else {
        lemma_real_divided(0real, dr);
        lemma_real_divided(b1, dr);
    }
    lemma_real_zero_product(b1 - g1, m1);
    if d >= 2 {
        lemma_normal_equations(points, d, 2);
        lemma_scaled_moment_is_residual_moment(points, den, n0, n1, n2, 2, n);
        lemma_real_divided(m2, dr);
    } else {
        lemma_real_divided(0real, dr);
        lemma_real_divided(b2, dr);
    }
    lemma_real_zero_product(b2 - g2, m2);
    lemma_real_residual_sums(points, b0, b1, b2, g0, g1, g2, n);
}

/// The polynomial fitted to points at different times is the least-squares fit: where
/// there are more points than the degree, the fit exists, and no polynomial of its degree
/// or less, whatever real numbers its coefficients are, has a smaller sum of squared
/// residuals.
pub proof fn lemma_fit_at_different_times_is_least_squares(
    points: Seq<(i64, i64)>,
    d: nat,
    g0: real,
    g1: real,
    g2: real,
)
    requires
        d <= 2,
        points.len() > d,
        times_rise(points),
        d < 2 ==> g2 == 0real,
        d < 1 ==> g1 == 0real,
    ensures
        denominator(power_sums(points), d) != 0,
        residual_sum(points, d) <= residual_square_sum(points, g0, g1, g2),
{
    lemma_different_times_determine_the_fit(points, d);
    lemma_fit_is_least_squares(points, d, g0, g1, g2);
}

/// The polynomial fitted to points that hold as many different values of `x` as it has
/// coefficients is the least-squares fit: the fit exists, and no polynomial of its degree
/// or less, whatever real numbers its coefficients are, has a smaller sum of squared
/// residuals.
pub proof fn lemma_fit_on_different_values_is_least_squares(
    points: Seq<(i64, i64)>,
    d: nat,
    a: int,
    b: int,
    c: int,
    g0: real,
    g1: real,
    g2: real,
)
    requires
        d <= 2,
        different_values(points, d, a, b, c),
        d < 2 ==> g2 == 0real,
        d < 1 ==> g1 == 0real,
    ensures
        denominator(power_sums(points), d) != 0,
        residual_sum(points, d) <= residual_square_sum(points, g0, g1, g2),
{
    lemma_different_values_determine_the_fit(points, d, a, b, c);
    lemma_fit_is_least_squares(points, d, g0, g1, g2);
}

/// The normal equations in real numbers: where the fit exists, the residuals of the
/// fitted polynomial, each times `x^k`, sum to zero for every power `k` up to the degree,
/// and the coefficients past the degree are zero.
pub proof fn lemma_real_normal_equations(points: Seq<(i64, i64)>, d: nat, k: nat)
    requires
        k <= d <= 2,
        denominator(power_sums(points), d) != 0,
    ensures
        real_residual_moment_upto(
            points,
            coefficient(points, d, 0),
            coefficient(points, d, 1),
            coefficient(points, d, 2),
            k,
            points.len(),
        ) == 0real,
        d < 2 ==> coefficient(points, d, 2) == 0real,
        d < 1 ==> coefficient(points, d, 1) == 0real,
{
    let q = power_sums(points);
    let den = denominator(q, d);
    let n0 = numerator(q, d, 0);
    let n1 = numerator(q, d, 1);
    let n2 = numerator(q, d, 2);
    let dr = den as real;
    let n = points.len();
    let m = real_residual_moment_upto(
        points,
        coefficient(points, d, 0),
        coefficient(points, d, 1),
        coefficient(points, d, 2),
        k,
        n,
    );
    lemma_unused_numerators(points, d);
    lemma_normal_equations(points, d, k);
    lemma_scaled_moment_is_residual_moment(points, den, n0, n1, n2, k, n);
    lemma_real_divided(m, dr);
    lemma_real_divided(n1 as real, dr);
    lemma_real_divided(n2 as real, dr);
    lemma_real_divided(coefficient(points, d, 1), dr);
    lemma_real_divided(coefficient(points, d, 2), dr);
}

proof fn lemma_real_squares_are_not_negative(
    points: Seq<(i64, i64)>,
    h0: real,
    h1: real,
    h2: real,
    n: nat,
)
    ensures
        real_quadratic_square_sum_upto(points, h0, h1, h2, n) >= 0real,
    decreases n,
{
    if n > 0 {
        lemma_real_squares_are_not_negative(points, h0, h1, h2, (n - 1) as nat);
        lemma_real_square_of_sum(0real, real_quadratic(h0, h1, h2, points[n - 1].0 as int));
    }
}

proof fn lemma_real_squares_vanish(
    points: Seq<(i64, i64)>,
    h0: real,
    h1: real,
    h2: real,
    n: nat,
    i: int,
)
    requires
        real_quadratic_square_sum_upto(points, h0, h1, h2, n) == 0real,
        0 <= i < n,
    ensures
        real_quadratic(h0, h1, h2, points[i].0 as int) == 0real,
    decreases n,
{
    let m = (n - 1) as nat;
    let g = real_quadratic(h0, h1, h2, points[n - 1].0 as int);
    lemma_real_squares_are_not_negative(points, h0, h1, h2, m);
    lemma_real_square_of_sum(0real, g);
    if g * g == 0real {
        lemma_real_no_zero_divisors(g, g);
    }
    if i < m {
        lemma_real_squares_vanish(points, h0, h1, h2, m, i);
    }
}

proof fn lemma_real_line_with_two_zeros(v0: real, v1: real, a: real, b: real)
    requires
        a != b,
        v0 + v1 * a == 0real,
        v0 + v1 * b == 0real,
    ensures
        v0 == 0real,
        v1 == 0real,
{
    lemma_real_distribute(v1, a, b);
    lemma_real_no_zero_divisors(v1, a - b);
    lemma_real_zero_product(v1, a);
}

proof fn lemma_real_parabola_with_three_zeros(
    v0: real,
    v1: real,
    v2: real,
    a: real,
    b: real,
    c: real,
)
    requires
        a != b,
        a != c,
        b != c,
        v0 + v1 * a + v2 * (a * a) == 0real,
        v0 + v1 * b + v2 * (b * b) == 0real,
        v0 + v1 * c + v2 * (c * c) == 0real,
    ensures
        v0 == 0real,
        v1 == 0real,
        v2 == 0real,
{
    // The difference of the values at two places is the difference of the places times
    // `v1 + v2 (a + b)`.
    let ab = v1 + v2 * (a + b);
    let ac = v1 + v2 * (a + c);
    assert((a - b) * ab == 0real) by {
        lemma_real_distribute(a - b, v1, v2 * (a + b));
        lemma_real_distribute(v1, a, b);
        lemma_real_difference_of_squares(a - b, v1);
        lemma_real_reorder(a - b, v2, a + b);
        lemma_real_difference_of_squares(a, b);
        lemma_real_distribute(v2, a * a, b * b);
    }
    assert((a - c) * ac == 0real) by {
        lemma_real_distribute(a - c, v1, v2 * (a + c));
        lemma_real_distribute(v1, a, c);
        lemma_real_difference_of_squares(a - c, v1);
        lemma_real_reorder(a - c, v2, a + c);
        lemma_real_difference_of_squares(a, c);
        lemma_real_distribute(v2, a * a, c * c);
    }
    lemma_real_no_zero_divisors(a - b, ab);
    lemma_real_no_zero_divisors(a - c, ac);
    lemma_real_distribute(v2, a, b);
    lemma_real_distribute(v2, a, c);
    lemma_real_distribute(v2, b, c);
    assert(v2 * (b - c) == 0real);
    lemma_real_no_zero_divisors(v2, b - c);
    lemma_real_zero_product(v2, a + b);
    lemma_real_zero_product(v2, a * a);
    lemma_real_zero_product(v1, a);
}

/// The normal equations have one solution: where the points hold as many different
/// values of `x` as the polynomial has coefficients, a polynomial of the degree or less
/// whose residuals, each times `x^k`, sum to zero for every power `k` up to the degree
/// is the fitted polynomial.
pub proof fn lemma_normal_equations_have_one_solution(
    points: Seq<(i64, i64)>,
    d: nat,
    a: int,
    b: int,
    c: int,
    g0: real,
    g1: real,
    g2: real,
)
    requires
        d <= 2,
        different_values(points, d, a, b, c),
        d < 2 ==> g2 == 0real,
        d < 1 ==> g1 == 0real,
        forall|k: nat|
            k <= d ==> #[trigger] real_residual_moment_upto(points, g0, g1, g2, k, points.len())
                == 0real,
    ensures
        g0 == coefficient(points, d, 0),
        g1 == coefficient(points, d, 1),
        g2 == coefficient(points, d, 2),
{
    let n = points.len();
    let b0 = coefficient(points, d, 0);
    let b1 = coefficient(points, d, 1);
    let b2 = coefficient(points, d, 2);
    let h0 = b0 - g0;
    let h1 = b1 - g1;
    let h2 = b2 - g2;
    lemma_different_values_determine_the_fit(points, d, a, b, c);
    lemma_real_normal_equations(points, d, 0);
    if d >= 1 {
        lemma_real_normal_equations(points, d, 1);
    }
    if d >= 2 {
        lemma_real_normal_equations(points, d, 2);
    }
    assert(real_residual_moment_upto(points, g0, g1, g2, 0, n) == 0real);
    assert(d >= 1 ==> real_residual_moment_upto(points, g0, g1, g2, 1, n) == 0real);
    assert(d >= 2 ==> real_residual_moment_upto(points, g0, g1, g2, 2, n) == 0real);
    lemma_real_zero_product(h0, real_residual_moment_upto(points, b0, b1, b2, 0, n));
    lemma_real_zero_product(h1, real_residual_moment_upto(points, b0, b1, b2, 1, n));
    lemma_real_zero_product(h2, real_residual_moment_upto(points, b0, b1, b2, 2, n));
    lemma_real_zero_product(g0 - b0, real_residual_moment_upto(points, g0, g1, g2, 0, n));
    lemma_real_zero_product(g1 - b1, real_residual_moment_upto(points, g0, g1, g2, 1, n));
    lemma_real_zero_product(g2 - b2, real_residual_moment_upto(points, g0, g1, g2, 2, n));
    lemma_real_residual_sums(points, b0, b1, b2, g0, g1, g2, n);
    lemma_real_residual_sums(points, g0, g1, g2, b0, b1, b2, n);
    assert(real_quadratic_square_sum_upto(points, h0, h1, h2, n) == 0real);
    let xa = points[a].0 as int;
    lemma_real_squares_vanish(points, h0, h1, h2, n, a);
    lemma_real_of_product(xa, xa);
    if d == 0 {
        lemma_real_zero_product(h1, xa as real);
        lemma_real_zero_product(h2, (xa * xa) as real);
    } else if d == 1 {
        let xb = points[b].0 as int;
        lemma_real_squares_vanish(points, h0, h1, h2, n, b);
        lemma_real_zero_product(h2, (xa * xa) as real);
        lemma_real_zero_product(h2, (xb * xb) as real);
        lemma_real_line_with_two_zeros(h0, h1, xa as real, xb as real);
    } else {
        let xb = points[b].0 as int;
        let xc = points[c].0 as int;
        lemma_real_squares_vanish(points, h0, h1, h2, n, b);
        lemma_real_squares_vanish(points, h0, h1, h2, n, c);
        lemma_real_of_product(xb, xb);
        lemma_real_of_product(xc, xc);
        lemma_real_parabola_with_three_zeros(h0, h1, h2, xa as real, xb as real, xc as real);
    }
}

} // verus!
