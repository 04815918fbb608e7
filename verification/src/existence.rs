//! Why a fit to samples of a history exists: points at different times determine the
//! polynomial, so the normal equations of a window of a history are never singular.

use crate::algebra::lemma_cramer;
use crate::algebra::lemma_det3_corner;
use crate::algebra::lemma_det3_unit_column;
use crate::algebra::lemma_distribute;
use crate::moments::lemma_moment_zero_is_count;
use crate::moments::lemma_power_small;
use crate::moments::moment_upto;
use crate::moments::power;
use crate::moments::power_sums;
use crate::solve::denominator;
use crate::solve::det3;
use crate::solve::entry;
use vstd::prelude::*;

verus! {

/// The polynomial `v0 + v1 x + v2 x^2` at `x`.
pub open spec fn quadratic(v0: int, v1: int, v2: int, x: int) -> int {
    v0 + v1 * x + v2 * (x * x)
}

/// The sum over the first `n` points of the square of `v0 + v1 x + v2 x^2`.
pub open spec fn quadratic_square_sum_upto(
    points: Seq<(i64, i64)>,
    v0: int,
    v1: int,
    v2: int,
    n: nat,
) -> int
    decreases n,
{
    if n == 0 {
        0
    } else {
        quadratic_square_sum_upto(points, v0, v1, v2, (n - 1) as nat) + quadratic(
            v0,
            v1,
            v2,
            points[n - 1].0 as int,
        ) * quadratic(v0, v1, v2, points[n - 1].0 as int)
    }
}

/// Whether the times of the points rise strictly.
pub open spec fn times_rise(points: Seq<(i64, i64)>) -> bool {
    forall|i: int, j: int| 0 <= i < j < points.len() ==> points[i].0 < points[j].0
}

proof fn lemma_double(a: int, x: int)
    by (nonlinear_arith)
    ensures
        (2 * a) * x == 2 * (a * x),
{
}

proof fn lemma_square_of_quadratic(v0: int, v1: int, v2: int, x: int)
    ensures
        quadratic(v0, v1, v2, x) * quadratic(v0, v1, v2, x) == (v0 * v0) * power(x, 0) + (2 * (v0
            * v1)) * power(x, 1) + (2 * (v0 * v2) + v1 * v1) * power(x, 2) + (2 * (v1 * v2))
            * power(x, 3) + (v2 * v2) * power(x, 4),
{
    let g = quadratic(v0, v1, v2, x);
    lemma_power_small(x);
    lemma_distribute(g, v0 + v1 * x, v2 * (x * x));
    lemma_distribute(g, v0, v1 * x);
    lemma_distribute(v0, v0 + v1 * x, v2 * (x * x));
    lemma_distribute(v0, v0, v1 * x);
    lemma_distribute(v1 * x, v0 + v1 * x, v2 * (x * x));
    lemma_distribute(v1 * x, v0, v1 * x);
    lemma_distribute(v2 * (x * x), v0 + v1 * x, v2 * (x * x));
    lemma_distribute(v2 * (x * x), v0, v1 * x);
    lemma_distribute(x * x, 2 * (v0 * v2), v1 * v1);
    lemma_double(v0 * v1, x);
    lemma_double(v0 * v2, x * x);
    lemma_double(v1 * v2, x * (x * x));
    assert((v0 * v0) * 1 == v0 * v0) by (nonlinear_arith);
    assert(v0 * (v1 * x) == (v0 * v1) * x) by (nonlinear_arith);
    assert((v1 * x) * v0 == (v0 * v1) * x) by (nonlinear_arith);
    assert(v0 * (v2 * (x * x)) == (v0 * v2) * (x * x)) by (nonlinear_arith);
    assert((v2 * (x * x)) * v0 == (v0 * v2) * (x * x)) by (nonlinear_arith);
    assert((v1 * x) * (v1 * x) == (v1 * v1) * (x * x)) by (nonlinear_arith);
    assert((v1 * x) * (v2 * (x * x)) == (v1 * v2) * (x * (x * x))) by (nonlinear_arith);
    assert((v2 * (x * x)) * (v1 * x) == (v1 * v2) * (x * (x * x))) by (nonlinear_arith);
    assert((v2 * (x * x)) * (v2 * (x * x)) == (v2 * v2) * (x * (x * (x * x))))
        by (nonlinear_arith);
}

/// The sum of the squares of a polynomial over the points, from the power sums of the
/// points.
proof fn lemma_quadratic_square_sum(points: Seq<(i64, i64)>, v0: int, v1: int, v2: int, n: nat)
    ensures
        quadratic_square_sum_upto(points, v0, v1, v2, n) == (v0 * v0) * moment_upto(points, 0, n)
            + (2 * (v0 * v1)) * moment_upto(points, 1, n) + (2 * (v0 * v2) + v1 * v1)
            * moment_upto(points, 2, n) + (2 * (v1 * v2)) * moment_upto(points, 3, n) + (v2 * v2)
            * moment_upto(points, 4, n),
    decreases n,
{
    if n == 0 {
        assert((v0 * v0) * 0 == 0) by (nonlinear_arith);
        assert((2 * (v0 * v1)) * 0 == 0) by (nonlinear_arith);
        assert((2 * (v0 * v2) + v1 * v1) * 0 == 0) by (nonlinear_arith);
        assert((2 * (v1 * v2)) * 0 == 0) by (nonlinear_arith);
        assert((v2 * v2) * 0 == 0) by (nonlinear_arith);
    } else {
        let m = (n - 1) as nat;
        lemma_quadratic_square_sum(points, v0, v1, v2, m);
        let x: int = points[n - 1].0 as int;
        lemma_square_of_quadratic(v0, v1, v2, x);
        lemma_distribute(v0 * v0, moment_upto(points, 0, m), power(x, 0));
        lemma_distribute(2 * (v0 * v1), moment_upto(points, 1, m), power(x, 1));
        lemma_distribute(2 * (v0 * v2) + v1 * v1, moment_upto(points, 2, m), power(x, 2));
        lemma_distribute(2 * (v1 * v2), moment_upto(points, 3, m), power(x, 3));
        lemma_distribute(v2 * v2, moment_upto(points, 4, m), power(x, 4));
    }
}

/// The sum of the squares of a polynomial over the points, as the polynomial's
/// coefficients times what the matrix of the power sums takes them to.
proof fn lemma_quadratic_form(
    v0: int,
    v1: int,
    v2: int,
    s0: int,
    s1: int,
    s2: int,
    s3: int,
    s4: int,
)
    ensures
        (v0 * v0) * s0 + (2 * (v0 * v1)) * s1 + (2 * (v0 * v2) + v1 * v1) * s2 + (2 * (v1 * v2))
            * s3 + (v2 * v2) * s4 == v0 * (s0 * v0 + s1 * v1 + s2 * v2) + v1 * (s1 * v0 + s2 * v1
            + s3 * v2) + v2 * (s2 * v0 + s3 * v1 + s4 * v2),
{
    lemma_distribute(v0, s0 * v0 + s1 * v1, s2 * v2);
    lemma_distribute(v0, s0 * v0, s1 * v1);
    lemma_distribute(v1, s1 * v0 + s2 * v1, s3 * v2);
    lemma_distribute(v1, s1 * v0, s2 * v1);
    lemma_distribute(v2, s2 * v0 + s3 * v1, s4 * v2);
    lemma_distribute(v2, s2 * v0, s3 * v1);
    lemma_distribute(s2, 2 * (v0 * v2), v1 * v1);
    lemma_double(v0 * v1, s1);
    lemma_double(v0 * v2, s2);
    lemma_double(v1 * v2, s3);
    assert(v0 * (s0 * v0) == (v0 * v0) * s0) by (nonlinear_arith);
    assert(v0 * (s1 * v1) == (v0 * v1) * s1) by (nonlinear_arith);
    assert(v1 * (s1 * v0) == (v0 * v1) * s1) by (nonlinear_arith);
    assert(v0 * (s2 * v2) == (v0 * v2) * s2) by (nonlinear_arith);
    assert(v2 * (s2 * v0) == (v0 * v2) * s2) by (nonlinear_arith);
    assert(v1 * (s2 * v1) == (v1 * v1) * s2) by (nonlinear_arith);
    assert(v1 * (s3 * v2) == (v1 * v2) * s3) by (nonlinear_arith);
    assert(v2 * (s3 * v1) == (v1 * v2) * s3) by (nonlinear_arith);
    assert(v2 * (s4 * v2) == (v2 * v2) * s4) by (nonlinear_arith);
}

/// A sum of squares that is zero has no term that is not.
proof fn lemma_squares_vanish(points: Seq<(i64, i64)>, v0: int, v1: int, v2: int, n: nat, i: int)
    requires
        quadratic_square_sum_upto(points, v0, v1, v2, n) == 0,
        0 <= i < n,
    ensures
        quadratic(v0, v1, v2, points[i].0 as int) == 0,
    decreases n,
{
    let m = (n - 1) as nat;
    let g = quadratic(v0, v1, v2, points[n - 1].0 as int);
    lemma_squares_are_not_negative(points, v0, v1, v2, m);
    assert(g * g >= 0) by (nonlinear_arith);
    assert(g * g == 0 ==> g == 0) by (nonlinear_arith);
    if i < m {
        lemma_squares_vanish(points, v0, v1, v2, m, i);
    }
}

proof fn lemma_squares_are_not_negative(points: Seq<(i64, i64)>, v0: int, v1: int, v2: int, n: nat)
    ensures
        quadratic_square_sum_upto(points, v0, v1, v2, n) >= 0,
    decreases n,
{
    if n > 0 {
        lemma_squares_are_not_negative(points, v0, v1, v2, (n - 1) as nat);
        let g = quadratic(v0, v1, v2, points[n - 1].0 as int);
        assert(g * g >= 0) by (nonlinear_arith);
    }
}

/// A line that is zero at two different places is zero everywhere.
proof fn lemma_line_with_two_zeros(v0: int, v1: int, a: int, b: int)
    requires
        a != b,
        quadratic(v0, v1, 0, a) == 0,
        quadratic(v0, v1, 0, b) == 0,
    ensures
        v0 == 0,
        v1 == 0,
{
    assert(0 * (a * a) == 0 && 0 * (b * b) == 0) by (nonlinear_arith);
    lemma_distribute(v1, a, b);
    assert(v1 * (a - b) == 0);
    assert(v1 == 0) by (nonlinear_arith)
        requires
            v1 * (a - b) == 0,
            a != b,
    ;
    assert(v1 * a == 0) by (nonlinear_arith)
        requires
            v1 == 0,
    ;
}

/// A parabola that is zero at three different places is zero everywhere.
proof fn lemma_parabola_with_three_zeros(v0: int, v1: int, v2: int, a: int, b: int, c: int)
    requires
        a != b,
        a != c,
        b != c,
        quadratic(v0, v1, v2, a) == 0,
        quadratic(v0, v1, v2, b) == 0,
        quadratic(v0, v1, v2, c) == 0,
    ensures
        v0 == 0,
        v1 == 0,
        v2 == 0,
{
    // The difference of the values at two places is the difference of the places times
    // `v1 + v2 (a + b)`.
    let ab = v1 + v2 * (a + b);
    let ac = v1 + v2 * (a + c);
    assert((a - b) * ab == v1 * a + v2 * (a * a) - (v1 * b + v2 * (b * b))) by {
        lemma_distribute(a - b, v1, v2 * (a + b));
        lemma_distribute(v1, a, b);
        lemma_distribute(v2, a, b);
        assert((a - b) * v1 == v1 * a - v1 * b) by (nonlinear_arith);
        assert((a - b) * (v2 * (a + b)) == v2 * (a * a) - v2 * (b * b)) by (nonlinear_arith);
    }
    assert((a - c) * ac == v1 * a + v2 * (a * a) - (v1 * c + v2 * (c * c))) by {
        lemma_distribute(a - c, v1, v2 * (a + c));
        assert((a - c) * v1 == v1 * a - v1 * c) by (nonlinear_arith);
        assert((a - c) * (v2 * (a + c)) == v2 * (a * a) - v2 * (c * c)) by (nonlinear_arith);
    }
    assert(ab == 0) by (nonlinear_arith)
        requires
            (a - b) * ab == 0,
            a != b,
    ;
    assert(ac == 0) by (nonlinear_arith)
        requires
            (a - c) * ac == 0,
            a != c,
    ;
    lemma_distribute(v2, a, b);
    lemma_distribute(v2, a, c);
    lemma_distribute(v2, b, c);
    assert(v2 * (b - c) == 0);
    assert(v2 == 0) by (nonlinear_arith)
        requires
            v2 * (b - c) == 0,
            b != c,
    ;
    assert(v2 * (a + b) == 0 && v2 * (a * a) == 0) by (nonlinear_arith)
        requires
            v2 == 0,
    ;
    assert(v1 * a == 0) by (nonlinear_arith)
        requires
            v1 == 0,
    ;
}

/// Whether the points at the places `a`, `b` and `c` are as many different values of
/// `x` as a polynomial of degree `d` has coefficients: one point for a constant, two
/// with different `x` for a line, three with `x` different from each other for a
/// parabola.
pub open spec fn different_values(points: Seq<(i64, i64)>, d: nat, a: int, b: int, c: int) -> bool {
    &&& 0 <= a < points.len()
    &&& d >= 1 ==> 0 <= b < points.len() && points[a].0 != points[b].0
    &&& d >= 2 ==> 0 <= c < points.len() && points[a].0 != points[c].0 && points[b].0
        != points[c].0
}

/// Two points with different `x` give power sums with `s0 * s2 - s1 * s1` not zero.
proof fn lemma_two_values_determine_a_line(points: Seq<(i64, i64)>, a: int, b: int)
    requires
        0 <= a < points.len(),
        0 <= b < points.len(),
        points[a].0 != points[b].0,
    ensures
        power_sums(points).s0 * power_sums(points).s2 - power_sums(points).s1 * power_sums(
            points,
        ).s1 != 0,
{
    let q = power_sums(points);
    let n = points.len();
    if q.s0 * q.s2 - q.s1 * q.s1 == 0 {
        let v0 = -q.s1;
        let v1 = q.s0;
        lemma_quadratic_square_sum(points, v0, v1, 0, n);
        lemma_quadratic_form(v0, v1, 0, q.s0, q.s1, q.s2, q.s3, q.s4);
        assert(q.s0 * v0 + q.s1 * v1 + q.s2 * 0 == 0) by (nonlinear_arith)
            requires
                v0 == -q.s1,
                v1 == q.s0,
        ;
        assert(q.s1 * v0 + q.s2 * v1 + q.s3 * 0 == 0) by (nonlinear_arith)
            requires
                v0 == -q.s1,
                v1 == q.s0,
                q.s0 * q.s2 - q.s1 * q.s1 == 0,
        ;
        assert(v0 * 0 == 0 && v1 * 0 == 0) by (nonlinear_arith);
        assert(0 * (q.s2 * v0 + q.s3 * v1 + q.s4 * 0) == 0) by (nonlinear_arith);
        lemma_squares_vanish(points, v0, v1, 0, n, a);
        lemma_squares_vanish(points, v0, v1, 0, n, b);
        lemma_line_with_two_zeros(v0, v1, points[a].0 as int, points[b].0 as int);
        lemma_moment_zero_is_count(points, n);
    }
}

/// As many different values of `x` as the polynomial has coefficients determine the
/// polynomial: the normal equations are not singular.
pub proof fn lemma_different_values_determine_the_fit(
    points: Seq<(i64, i64)>,
    d: nat,
    a: int,
    b: int,
    c: int,
)
    requires
        d <= 2,
        different_values(points, d, a, b, c),
    ensures
        denominator(power_sums(points), d) != 0,
{
    let q = power_sums(points);
    let n = points.len();
    if d == 0 {
        lemma_det3_corner(q.s0);
        lemma_moment_zero_is_count(points, n);
    } else if d == 1 {
        lemma_det3_unit_column(q.s0, q.s1, 0, q.s1, q.s2, 0, 0, 0, 1);
        lemma_two_values_determine_a_line(points, a, b);
    } else {
        if denominator(q, d) == 0 {
            let v0 = det3(0, q.s1, q.s2, 0, q.s2, q.s3, 1, q.s3, q.s4);
            let v1 = det3(q.s0, 0, q.s2, q.s1, 0, q.s3, q.s2, 1, q.s4);
            let v2 = det3(q.s0, q.s1, 0, q.s1, q.s2, 0, q.s2, q.s3, 1);
            lemma_cramer(q.s0, q.s1, q.s2, q.s1, q.s2, q.s3, q.s2, q.s3, q.s4, 0, 0, 1);
            lemma_det3_unit_column(q.s0, q.s1, q.s2, q.s1, q.s2, q.s3, q.s2, q.s3, q.s4);
            lemma_two_values_determine_a_line(points, a, b);
            assert(v2 != 0);
            lemma_quadratic_square_sum(points, v0, v1, v2, n);
            lemma_quadratic_form(v0, v1, v2, q.s0, q.s1, q.s2, q.s3, q.s4);
            assert(v0 * 0 == 0 && v1 * 0 == 0 && v2 * 0 == 0) by (nonlinear_arith);
            assert(denominator(q, d) * 0 == 0 && denominator(q, d) * 1 == 0) by (nonlinear_arith)
                requires
                    denominator(q, d) == 0,
            ;
            lemma_squares_vanish(points, v0, v1, v2, n, a);
            lemma_squares_vanish(points, v0, v1, v2, n, b);
            lemma_squares_vanish(points, v0, v1, v2, n, c);
            lemma_parabola_with_three_zeros(
                v0,
                v1,
                v2,
                points[a].0 as int,
                points[b].0 as int,
                points[c].0 as int,
            );
        }
    }
}

/// Points at different times determine the polynomial: where there are more points than
/// the degree, the normal equations are not singular.
pub proof fn lemma_different_times_determine_the_fit(points: Seq<(i64, i64)>, d: nat)
    requires
        d <= 2,
        points.len() > d,
        times_rise(points),
    ensures
        denominator(power_sums(points), d) != 0,
{
    lemma_different_values_determine_the_fit(points, d, 0, 1, 2);
}

} // verus!
