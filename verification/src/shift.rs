//! The fit follows the points: points that are moved or stretched along both axes give
//! the fitted polynomial moved or stretched with them. So a fit that is made on points
//! brought to another origin and another scale, and carried back, is the fit on the
//! points as they are.

use crate::algebra::lemma_real_difference_of_squares;
use crate::algebra::lemma_real_distribute;
use crate::algebra::lemma_real_divided;
use crate::algebra::lemma_real_fraction_of_multiple;
use crate::algebra::lemma_real_no_zero_divisors;
use crate::algebra::lemma_real_of_product;
use crate::algebra::lemma_real_reorder;
use crate::algebra::lemma_real_square_of_sum;
use crate::algebra::lemma_real_zero_product;
use crate::existence::different_values;
use crate::existence::lemma_different_values_determine_the_fit;
use crate::moments::lemma_power_small;
use crate::moments::power;
use crate::moments::power_sums;
use crate::optimality::lemma_normal_equations_have_one_solution;
use crate::optimality::lemma_real_normal_equations;
use crate::optimality::real_quadratic;
use crate::optimality::real_residual_moment_upto;
use crate::optimality::residual;
use crate::regression::coefficient;
use crate::solve::denominator;
use vstd::prelude::*;

verus! {

/// Whether `moved` are the points `points`, each moved by `h` along `x` and by `k` along
/// `y`.
pub open spec fn is_shifted(points: Seq<(i64, i64)>, moved: Seq<(i64, i64)>, h: int, k: int) -> bool {
    &&& moved.len() == points.len()
    &&& forall|i: int|
        0 <= i < points.len() ==> (#[trigger] moved[i]).0 == points[i].0 + h && moved[i].1
            == points[i].1 + k
}

/// The coefficient of `u^j` in the polynomial `p(u - h) + k`, where `p` is
/// `b0 + b1 x + b2 x^2`.
pub open spec fn shifted_coefficient(b0: real, b1: real, b2: real, h: int, k: int, j: nat) -> real {
    if j == 0 {
        b0 - b1 * (h as real) + b2 * ((h as real) * (h as real)) + k as real
    } else if j == 1 {
        b1 - 2real * (b2 * (h as real))
    } else {
        b2
    }
}

/// The moved polynomial at a moved place is the polynomial at the place, moved.
proof fn lemma_moved_value(b0: real, b1: real, b2: real, h: int, k: int, x: int)
    ensures
        real_quadratic(
            shifted_coefficient(b0, b1, b2, h, k, 0),
            shifted_coefficient(b0, b1, b2, h, k, 1),
            shifted_coefficient(b0, b1, b2, h, k, 2),
            x + h,
        ) == real_quadratic(b0, b1, b2, x) + k as real,
{
    let big = h as real;
    let at = x as real;
    let u = b2 * big;
    let g1 = b1 - 2real * u;
    lemma_real_of_product(x + h, x + h);
    lemma_real_of_product(x, x);
    lemma_real_square_of_sum(at, big);
    lemma_real_distribute(b2, at * at + 2real * (at * big), big * big);
    lemma_real_distribute(b2, at * at, 2real * (at * big));
    lemma_real_reorder(b2, 2real, at * big);
    lemma_real_distribute(g1, at, big);
    lemma_real_distribute(at, b1, 2real * u);
    lemma_real_distribute(big, b1, 2real * u);
    lemma_real_reorder(2real, u, at);
    lemma_real_reorder(2real, u, big);
    lemma_real_reorder(b2, big, at);
    lemma_real_reorder(b2, big, big);
    lemma_real_difference_of_squares(at, big);
}

/// The sums of the residuals of the moved polynomial over the moved points, each times a
/// power of `x`, from those of the polynomial over the points.
proof fn lemma_moved_moments(
    points: Seq<(i64, i64)>,
    moved: Seq<(i64, i64)>,
    b0: real,
    b1: real,
    b2: real,
    h: int,
    k: int,
    n: nat,
)
    requires
        is_shifted(points, moved, h, k),
        n <= points.len(),
    ensures
        ({
            let g0 = shifted_coefficient(b0, b1, b2, h, k, 0);
            let g1 = shifted_coefficient(b0, b1, b2, h, k, 1);
            let g2 = shifted_coefficient(b0, b1, b2, h, k, 2);
            let m0 = real_residual_moment_upto(points, b0, b1, b2, 0, n);
            let m1 = real_residual_moment_upto(points, b0, b1, b2, 1, n);
            let m2 = real_residual_moment_upto(points, b0, b1, b2, 2, n);
            let big = h as real;
            &&& real_residual_moment_upto(moved, g0, g1, g2, 0, n) == m0
            &&& real_residual_moment_upto(moved, g0, g1, g2, 1, n) == m1 + big * m0
            &&& real_residual_moment_upto(moved, g0, g1, g2, 2, n) == m2 + 2real * (big * m1) + (
            big * big) * m0
        }),
    decreases n,
{
    if n > 0 {
        let m = (n - 1) as nat;
        lemma_moved_moments(points, moved, b0, b1, b2, h, k, m);
        let x: int = points[n - 1].0 as int;
        let y: int = points[n - 1].1 as int;
        assert(moved[n - 1].0 == x + h && moved[n - 1].1 == y + k);
        let big = h as real;
        let at = x as real;
        let rho = residual(b0, b1, b2, x, y);
        let m0 = real_residual_moment_upto(points, b0, b1, b2, 0, m);
        let m1 = real_residual_moment_upto(points, b0, b1, b2, 1, m);
        lemma_moved_value(b0, b1, b2, h, k, x);
        lemma_power_small(x);
        lemma_power_small(x + h);
        lemma_real_of_product(x + h, x + h);
        lemma_real_of_product(x, x);
        lemma_real_square_of_sum(at, big);
        // The first power.
        lemma_real_distribute(rho, at, big);
        lemma_real_distribute(big, m0, rho * 1real);
        lemma_real_difference_of_squares(rho, big);
        // The second power.
        lemma_real_distribute(rho, at * at + 2real * (at * big), big * big);
        lemma_real_distribute(rho, at * at, 2real * (at * big));
        lemma_real_reorder(rho, 2real, at * big);
        lemma_real_reorder(rho, at, big);
        lemma_real_difference_of_squares(rho * at, big);
        lemma_real_distribute(big, m1, rho * at);
        lemma_real_difference_of_squares(rho, big * big);
        lemma_real_distribute(big * big, m0, rho * 1real);
    } else {
        let big = h as real;
        assert(big * 0real == 0real);
        assert((big * big) * 0real == 0real);
    }
}

/// The fit follows a shift of the points: where the points hold as many different
/// values of `x` as the polynomial has coefficients, the polynomial fitted to the points
/// moved by `h` along `x` and by `k` along `y` is `p(u - h) + k`, where `p` is the
/// polynomial fitted to the points as they are.
pub proof fn lemma_fit_follows_a_shift(
    points: Seq<(i64, i64)>,
    moved: Seq<(i64, i64)>,
    d: nat,
    h: int,
    k: int,
    a: int,
    b: int,
    c: int,
)
    requires
        d <= 2,
        is_shifted(points, moved, h, k),
        different_values(points, d, a, b, c),
    ensures
        denominator(power_sums(points), d) != 0,
        denominator(power_sums(moved), d) != 0,
        forall|j: nat|
            j <= 2 ==> #[trigger] coefficient(moved, d, j) == shifted_coefficient(
                coefficient(points, d, 0),
                coefficient(points, d, 1),
                coefficient(points, d, 2),
                h,
                k,
                j,
            ),
{
    let n = points.len();
    let b0 = coefficient(points, d, 0);
    let b1 = coefficient(points, d, 1);
    let b2 = coefficient(points, d, 2);
    let g0 = shifted_coefficient(b0, b1, b2, h, k, 0);
    let g1 = shifted_coefficient(b0, b1, b2, h, k, 1);
    let g2 = shifted_coefficient(b0, b1, b2, h, k, 2);
    let big = h as real;
    assert(different_values(moved, d, a, b, c));
    lemma_different_values_determine_the_fit(points, d, a, b, c);
    lemma_different_values_determine_the_fit(moved, d, a, b, c);
    lemma_moved_moments(points, moved, b0, b1, b2, h, k, n);
    let m0 = real_residual_moment_upto(points, b0, b1, b2, 0, n);
    let m1 = real_residual_moment_upto(points, b0, b1, b2, 1, n);
    lemma_real_normal_equations(points, d, 0);
    lemma_real_zero_product(big, m0);
    lemma_real_zero_product(big * big, m0);
    if d >= 1 {
        lemma_real_normal_equations(points, d, 1);
        lemma_real_zero_product(big, m1);
    }
    if d >= 2 {
        lemma_real_normal_equations(points, d, 2);
    }
    if d < 2 {
        lemma_real_zero_product(b2, big);
        lemma_real_zero_product(b2, big * big);
    }
    assert forall|j: nat| j <= d implies #[trigger] real_residual_moment_upto(
        moved,
        g0,
        g1,
        g2,
        j,
        moved.len(),
    ) == 0real by {
        assert(j == 0 || j == 1 || j == 2);
    }
    lemma_normal_equations_have_one_solution(moved, d, a, b, c, g0, g1, g2);
}

/// Whether `stretched` are the points `points`, each with `x` taken `s` times and `y`
/// taken `t` times.
pub open spec fn is_scaled(
    points: Seq<(i64, i64)>,
    stretched: Seq<(i64, i64)>,
    s: int,
    t: int,
) -> bool {
    &&& stretched.len() == points.len()
    &&& forall|i: int|
        0 <= i < points.len() ==> (#[trigger] stretched[i]).0 == s * points[i].0 && stretched[i].1
            == t * points[i].1
}

/// The coefficient of `u^j` in the polynomial `t p(u / s)`, where `p` has the
/// coefficient `b` at `x^j`.
pub open spec fn scaled_coefficient(b: real, s: int, t: int, j: nat) -> real {
    if j == 0 {
        (t as real) * b
    } else if j == 1 {
        ((t as real) * b) / (s as real)
    } else {
        ((t as real) * b) / ((s as real) * (s as real))
    }
}

/// The stretched polynomial at a stretched place is the polynomial at the place,
/// stretched.
proof fn lemma_stretched_value(b0: real, b1: real, b2: real, s: int, t: int, x: int)
    requires
        s != 0,
    ensures
        real_quadratic(
            scaled_coefficient(b0, s, t, 0),
            scaled_coefficient(b1, s, t, 1),
            scaled_coefficient(b2, s, t, 2),
            s * x,
        ) == (t as real) * real_quadratic(b0, b1, b2, x),
{
    let wide = s as real;
    let tall = t as real;
    let at = x as real;
    lemma_real_of_product(s, x);
    lemma_real_of_product(s * x, s * x);
    lemma_real_of_product(x, x);
    lemma_real_fraction_of_multiple(tall * b1, wide, at);
    lemma_real_fraction_of_multiple(tall * b2, wide * wide, at * at);
    lemma_real_reorder(wide, at, 1real);
    lemma_real_distribute(tall, b0 + b1 * at, b2 * (at * at));
    lemma_real_distribute(tall, b0, b1 * at);
    lemma_real_reorder(tall, b1, at);
    lemma_real_reorder(tall, b2, at * at);
}

/// The sums of the residuals of the stretched polynomial over the stretched points, each
/// times a power of `x`, from those of the polynomial over the points.
proof fn lemma_stretched_moments(
    points: Seq<(i64, i64)>,
    stretched: Seq<(i64, i64)>,
    b0: real,
    b1: real,
    b2: real,
    s: int,
    t: int,
    n: nat,
)
    requires
        is_scaled(points, stretched, s, t),
        s != 0,
        n <= points.len(),
    ensures
        ({
            let g0 = scaled_coefficient(b0, s, t, 0);
            let g1 = scaled_coefficient(b1, s, t, 1);
            let g2 = scaled_coefficient(b2, s, t, 2);
            let wide = s as real;
            let tall = t as real;
            &&& real_residual_moment_upto(stretched, g0, g1, g2, 0, n) == tall
                * real_residual_moment_upto(points, b0, b1, b2, 0, n)
            &&& real_residual_moment_upto(stretched, g0, g1, g2, 1, n) == (tall * wide)
                * real_residual_moment_upto(points, b0, b1, b2, 1, n)
            &&& real_residual_moment_upto(stretched, g0, g1, g2, 2, n) == (tall * (wide * wide))
                * real_residual_moment_upto(points, b0, b1, b2, 2, n)
        }),
    decreases n,
{
    let wide = s as real;
    let tall = t as real;
    if n > 0 {
        let m = (n - 1) as nat;
        lemma_stretched_moments(points, stretched, b0, b1, b2, s, t, m);
        let x: int = points[n - 1].0 as int;
        let y: int = points[n - 1].1 as int;
        assert(stretched[n - 1].0 == s * x && stretched[n - 1].1 == t * y);
        let at = x as real;
        let rho = residual(b0, b1, b2, x, y);
        lemma_stretched_value(b0, b1, b2, s, t, x);
        lemma_power_small(x);
        lemma_power_small(s * x);
        lemma_real_of_product(t, y);
        lemma_real_of_product(s, x);
        lemma_real_of_product(s * x, s * x);
        lemma_real_of_product(x, x);
        lemma_real_distribute(tall, y as real, real_quadratic(b0, b1, b2, x));
        lemma_real_distribute(tall, real_residual_moment_upto(points, b0, b1, b2, 0, m), rho * 1real);
        lemma_real_distribute(
            tall * wide,
            real_residual_moment_upto(points, b0, b1, b2, 1, m),
            rho * at,
        );
        lemma_real_distribute(
            tall * (wide * wide),
            real_residual_moment_upto(points, b0, b1, b2, 2, m),
            rho * (at * at),
        );
        lemma_real_reorder(tall, rho, wide * at);
        lemma_real_reorder(rho, wide, at);
        lemma_real_reorder(tall, wide, rho * at);
        lemma_real_reorder(tall, rho, (wide * at) * (wide * at));
        lemma_real_reorder(wide, at, 1real);
        lemma_real_reorder(rho, wide * wide, at * at);
        lemma_real_reorder(tall, wide * wide, rho * (at * at));
        let g0 = scaled_coefficient(b0, s, t, 0);
        let g1 = scaled_coefficient(b1, s, t, 1);
        let g2 = scaled_coefficient(b2, s, t, 2);
        let moved_rho = residual(g0, g1, g2, s * x, t * y);
        assert(moved_rho == tall * rho);
        assert(moved_rho * 1real == tall * (rho * 1real));
        assert(moved_rho * (wide * at) == (tall * wide) * (rho * at));
        assert(moved_rho * ((wide * at) * (wide * at)) == (tall * (wide * wide)) * (rho * (at
            * at)));
        assert(real_residual_moment_upto(stretched, g0, g1, g2, 0, n) == tall
            * real_residual_moment_upto(points, b0, b1, b2, 0, n));
        assert(real_residual_moment_upto(stretched, g0, g1, g2, 1, n) == (tall * wide)
            * real_residual_moment_upto(points, b0, b1, b2, 1, n));
    } else {
        assert(tall * 0real == 0real);
        assert((tall * wide) * 0real == 0real);
        assert((tall * (wide * wide)) * 0real == 0real);
    }
}

/// The fit follows a change of scale: where the points hold as many different values of
/// `x` as the polynomial has coefficients, the polynomial fitted to the points with `x`
/// taken `s` times and `y` taken `t` times is `t p(u / s)`, where `p` is the polynomial
/// fitted to the points as they are.
pub proof fn lemma_fit_follows_a_change_of_scale(
    points: Seq<(i64, i64)>,
    stretched: Seq<(i64, i64)>,
    d: nat,
    s: int,
    t: int,
    a: int,
    b: int,
    c: int,
)
    requires
        d <= 2,
        s != 0,
        is_scaled(points, stretched, s, t),
        different_values(points, d, a, b, c),
    ensures
        denominator(power_sums(points), d) != 0,
        denominator(power_sums(stretched), d) != 0,
        forall|j: nat|
            j <= 2 ==> #[trigger] coefficient(stretched, d, j) == scaled_coefficient(
                coefficient(points, d, j),
                s,
                t,
                j,
            ),
{
    let n = points.len();
    let b0 = coefficient(points, d, 0);
    let b1 = coefficient(points, d, 1);
    let b2 = coefficient(points, d, 2);
    let g0 = scaled_coefficient(b0, s, t, 0);
    let g1 = scaled_coefficient(b1, s, t, 1);
    let g2 = scaled_coefficient(b2, s, t, 2);
    let wide = s as real;
    let tall = t as real;
    assert(different_values(stretched, d, a, b, c)) by {
        let xa = points[a].0 as int;
        assert(stretched[a].0 == s * xa);
        if d >= 1 {
            let xb = points[b].0 as int;
            assert(stretched[b].0 == s * xb);
            assert(s * xa != s * xb) by (nonlinear_arith)
                requires
                    s != 0,
                    xa != xb,
            ;
        }
        if d >= 2 {
            let xb = points[b].0 as int;
            let xc = points[c].0 as int;
            assert(stretched[c].0 == s * xc);
            assert(s * xa != s * xc && s * xb != s * xc) by (nonlinear_arith)
                requires
                    s != 0,
                    xa != xc,
                    xb != xc,
            ;
        }
    }
    lemma_different_values_determine_the_fit(points, d, a, b, c);
    lemma_different_values_determine_the_fit(stretched, d, a, b, c);
    lemma_stretched_moments(points, stretched, b0, b1, b2, s, t, n);
    lemma_real_normal_equations(points, d, 0);
    lemma_real_zero_product(tall, real_residual_moment_upto(points, b0, b1, b2, 0, n));
    if d >= 1 {
        lemma_real_normal_equations(points, d, 1);
        lemma_real_zero_product(tall * wide, real_residual_moment_upto(points, b0, b1, b2, 1, n));
    } else {
        lemma_real_zero_product(tall, b1);
        lemma_real_divided(tall * b1, wide);
        lemma_real_no_zero_divisors(wide, g1);
    }
    lemma_real_fraction_of_multiple(0real, wide, 0real);
    if d >= 2 {
        lemma_real_normal_equations(points, d, 2);
        lemma_real_zero_product(
            tall * (wide * wide),
            real_residual_moment_upto(points, b0, b1, b2, 2, n),
        );
    } else {
        lemma_real_zero_product(tall, b2);
        lemma_real_divided(tall * b2, wide * wide);
        lemma_real_no_zero_divisors(wide * wide, g2);
    }
    assert forall|j: nat| j <= d implies #[trigger] real_residual_moment_upto(
        stretched,
        g0,
        g1,
        g2,
        j,
        stretched.len(),
    ) == 0real by {
        assert(j == 0 || j == 1 || j == 2);
    }
    lemma_normal_equations_have_one_solution(stretched, d, a, b, c, g0, g1, g2);
}

} // verus!
