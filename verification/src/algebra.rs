//! Identities of integer arithmetic that the proofs about the fit rest on.

use crate::solve::det3;
use vstd::prelude::*;

verus! {

/// A product with a sum or a difference, multiplied out.
pub proof fn lemma_distribute(x: int, u: int, v: int)
    by (nonlinear_arith)
    ensures
        x * (u - v) == x * u - x * v,
        x * (u + v) == x * u + x * v,
        (u + v) * x == u * x + v * x,
        (u - v) * x == u * x - v * x,
{
}

/// A product with a sum of six terms of changing sign, multiplied out.
pub proof fn lemma_distribute_six(x: int, m1: int, m2: int, m3: int, m4: int, m5: int, m6: int)
    by (nonlinear_arith)
    ensures
        x * (m1 - m2 - m3 + m4 + m5 - m6) == x * m1 - x * m2 - x * m3 + x * m4 + x * m5 - x * m6,
{
}

/// A determinant of three rows as a sum of six products.
pub proof fn lemma_det3_flat(a: int, b: int, c: int, d: int, e: int, f: int, g: int, h: int, i: int)
    ensures
        det3(a, b, c, d, e, f, g, h, i) == a * (e * i) - a * (f * h) - b * (d * i) + b * (f * g)
            + c * (d * h) - c * (e * g),
{
    lemma_distribute(a, e * i, f * h);
    lemma_distribute(b, d * i, f * g);
    lemma_distribute(c, d * h, e * g);
}

proof fn lemma_first_row_flat(
    a: int,
    b: int,
    c: int,
    d: int,
    e: int,
    f: int,
    g: int,
    h: int,
    i: int,
    p: int,
    q: int,
    r: int,
)
    ensures
        (a * (p * (e * i)) - a * (p * (f * h)) - a * (b * (q * i)) + a * (b * (f * r)) + a * (c * (q * h)) - a * (c * (e * r))) + (b * (a * (q * i)) - b * (a * (f * r)) - b * (p * (d * i)) + b * (p * (f * g)) + b * (c * (d * r)) - b * (c * (q * g))) + (c * (a * (e * r)) - c * (a * (q * h)) - c * (b * (d * r)) + c * (b * (q * g)) + c * (p * (d * h)) - c * (p * (e * g))) == p * (a * (e * i)) - p * (a * (f * h)) - p * (b * (d * i)) + p * (b * (f * g)) + p * (c * (d * h)) - p * (c * (e * g)),
{
    assert(a * (p * (e * i)) == a * (e * (i * p))) by (nonlinear_arith);
    assert(a * (p * (f * h)) == a * (f * (h * p))) by (nonlinear_arith);
    assert(a * (b * (q * i)) == a * (b * (i * q))) by (nonlinear_arith);
    assert(a * (c * (q * h)) == a * (c * (h * q))) by (nonlinear_arith);
    assert(b * (a * (q * i)) == a * (b * (i * q))) by (nonlinear_arith);
    assert(b * (a * (f * r)) == a * (b * (f * r))) by (nonlinear_arith);
    assert(b * (p * (d * i)) == b * (d * (i * p))) by (nonlinear_arith);
    assert(b * (p * (f * g)) == b * (f * (g * p))) by (nonlinear_arith);
    assert(b * (c * (q * g)) == b * (c * (g * q))) by (nonlinear_arith);
    assert(c * (a * (e * r)) == a * (c * (e * r))) by (nonlinear_arith);
    assert(c * (a * (q * h)) == a * (c * (h * q))) by (nonlinear_arith);
    assert(c * (b * (d * r)) == b * (c * (d * r))) by (nonlinear_arith);
    assert(c * (b * (q * g)) == b * (c * (g * q))) by (nonlinear_arith);
    assert(c * (p * (d * h)) == c * (d * (h * p))) by (nonlinear_arith);
    assert(c * (p * (e * g)) == c * (e * (g * p))) by (nonlinear_arith);
    assert(p * (a * (e * i)) == a * (e * (i * p))) by (nonlinear_arith);
    assert(p * (a * (f * h)) == a * (f * (h * p))) by (nonlinear_arith);
    assert(p * (b * (d * i)) == b * (d * (i * p))) by (nonlinear_arith);
    assert(p * (b * (f * g)) == b * (f * (g * p))) by (nonlinear_arith);
    assert(p * (c * (d * h)) == c * (d * (h * p))) by (nonlinear_arith);
    assert(p * (c * (e * g)) == c * (e * (g * p))) by (nonlinear_arith);
}

proof fn lemma_second_row_flat(
    a: int,
    b: int,
    c: int,
    d: int,
    e: int,
    f: int,
    g: int,
    h: int,
    i: int,
    p: int,
    q: int,
    r: int,
)
    ensures
        (d * (p * (e * i)) - d * (p * (f * h)) - d * (b * (q * i)) + d * (b * (f * r)) + d * (c * (q * h)) - d * (c * (e * r))) + (e * (a * (q * i)) - e * (a * (f * r)) - e * (p * (d * i)) + e * (p * (f * g)) + e * (c * (d * r)) - e * (c * (q * g))) + (f * (a * (e * r)) - f * (a * (q * h)) - f * (b * (d * r)) + f * (b * (q * g)) + f * (p * (d * h)) - f * (p * (e * g))) == q * (a * (e * i)) - q * (a * (f * h)) - q * (b * (d * i)) + q * (b * (f * g)) + q * (c * (d * h)) - q * (c * (e * g)),
{
    assert(d * (p * (e * i)) == d * (e * (i * p))) by (nonlinear_arith);
    assert(d * (p * (f * h)) == d * (f * (h * p))) by (nonlinear_arith);
    assert(d * (b * (q * i)) == b * (d * (i * q))) by (nonlinear_arith);
    assert(d * (b * (f * r)) == b * (d * (f * r))) by (nonlinear_arith);
    assert(d * (c * (q * h)) == c * (d * (h * q))) by (nonlinear_arith);
    assert(d * (c * (e * r)) == c * (d * (e * r))) by (nonlinear_arith);
    assert(e * (a * (q * i)) == a * (e * (i * q))) by (nonlinear_arith);
    assert(e * (a * (f * r)) == a * (e * (f * r))) by (nonlinear_arith);
    assert(e * (p * (d * i)) == d * (e * (i * p))) by (nonlinear_arith);
    assert(e * (p * (f * g)) == e * (f * (g * p))) by (nonlinear_arith);
    assert(e * (c * (d * r)) == c * (d * (e * r))) by (nonlinear_arith);
    assert(e * (c * (q * g)) == c * (e * (g * q))) by (nonlinear_arith);
    assert(f * (a * (e * r)) == a * (e * (f * r))) by (nonlinear_arith);
    assert(f * (a * (q * h)) == a * (f * (h * q))) by (nonlinear_arith);
    assert(f * (b * (d * r)) == b * (d * (f * r))) by (nonlinear_arith);
    assert(f * (b * (q * g)) == b * (f * (g * q))) by (nonlinear_arith);
    assert(f * (p * (d * h)) == d * (f * (h * p))) by (nonlinear_arith);
    assert(f * (p * (e * g)) == e * (f * (g * p))) by (nonlinear_arith);
    assert(q * (a * (e * i)) == a * (e * (i * q))) by (nonlinear_arith);
    assert(q * (a * (f * h)) == a * (f * (h * q))) by (nonlinear_arith);
    assert(q * (b * (d * i)) == b * (d * (i * q))) by (nonlinear_arith);
    assert(q * (b * (f * g)) == b * (f * (g * q))) by (nonlinear_arith);
    assert(q * (c * (d * h)) == c * (d * (h * q))) by (nonlinear_arith);
    assert(q * (c * (e * g)) == c * (e * (g * q))) by (nonlinear_arith);
}

proof fn lemma_third_row_flat(
    a: int,
    b: int,
    c: int,
    d: int,
    e: int,
    f: int,
    g: int,
    h: int,
    i: int,
    p: int,
    q: int,
    r: int,
)
    ensures
        (g * (p * (e * i)) - g * (p * (f * h)) - g * (b * (q * i)) + g * (b * (f * r)) + g * (c * (q * h)) - g * (c * (e * r))) + (h * (a * (q * i)) - h * (a * (f * r)) - h * (p * (d * i)) + h * (p * (f * g)) + h * (c * (d * r)) - h * (c * (q * g))) + (i * (a * (e * r)) - i * (a * (q * h)) - i * (b * (d * r)) + i * (b * (q * g)) + i * (p * (d * h)) - i * (p * (e * g))) == r * (a * (e * i)) - r * (a * (f * h)) - r * (b * (d * i)) + r * (b * (f * g)) + r * (c * (d * h)) - r * (c * (e * g)),
{
    assert(g * (p * (e * i)) == e * (g * (i * p))) by (nonlinear_arith);
    assert(g * (p * (f * h)) == f * (g * (h * p))) by (nonlinear_arith);
    assert(g * (b * (q * i)) == b * (g * (i * q))) by (nonlinear_arith);
    assert(g * (b * (f * r)) == b * (f * (g * r))) by (nonlinear_arith);
    assert(g * (c * (q * h)) == c * (g * (h * q))) by (nonlinear_arith);
    assert(g * (c * (e * r)) == c * (e * (g * r))) by (nonlinear_arith);
    assert(h * (a * (q * i)) == a * (h * (i * q))) by (nonlinear_arith);
    assert(h * (a * (f * r)) == a * (f * (h * r))) by (nonlinear_arith);
    assert(h * (p * (d * i)) == d * (h * (i * p))) by (nonlinear_arith);
    assert(h * (p * (f * g)) == f * (g * (h * p))) by (nonlinear_arith);
    assert(h * (c * (d * r)) == c * (d * (h * r))) by (nonlinear_arith);
    assert(h * (c * (q * g)) == c * (g * (h * q))) by (nonlinear_arith);
    assert(i * (a * (e * r)) == a * (e * (i * r))) by (nonlinear_arith);
    assert(i * (a * (q * h)) == a * (h * (i * q))) by (nonlinear_arith);
    assert(i * (b * (d * r)) == b * (d * (i * r))) by (nonlinear_arith);
    assert(i * (b * (q * g)) == b * (g * (i * q))) by (nonlinear_arith);
    assert(i * (p * (d * h)) == d * (h * (i * p))) by (nonlinear_arith);
    assert(i * (p * (e * g)) == e * (g * (i * p))) by (nonlinear_arith);
    assert(r * (a * (e * i)) == a * (e * (i * r))) by (nonlinear_arith);
    assert(r * (a * (f * h)) == a * (f * (h * r))) by (nonlinear_arith);
    assert(r * (b * (d * i)) == b * (d * (i * r))) by (nonlinear_arith);
    assert(r * (b * (f * g)) == b * (f * (g * r))) by (nonlinear_arith);
    assert(r * (c * (d * h)) == c * (d * (h * r))) by (nonlinear_arith);
    assert(r * (c * (e * g)) == c * (e * (g * r))) by (nonlinear_arith);
}


/// The determinant of a matrix that is the unit matrix but for its first entry.
pub proof fn lemma_det3_corner(a: int)
    ensures
        det3(a, 0, 0, 0, 1, 0, 0, 0, 1) == a,
{
    assert(a * (1 * 1 - 0 * 0) == a) by (nonlinear_arith);
}

/// A determinant with a column of the unit matrix is the determinant of what is left
/// without that column and its row.
pub proof fn lemma_det3_unit_column(a: int, b: int, c: int, d: int, e: int, f: int, g: int, h: int, i: int)
    ensures
        det3(1, b, c, 0, e, f, 0, h, i) == e * i - f * h,
        det3(a, 0, c, d, 1, f, g, 0, i) == a * i - c * g,
        det3(a, b, 0, d, e, 0, g, h, 1) == a * e - b * d,
{
    assert(1 * (e * i - f * h) == e * i - f * h) by (nonlinear_arith);
    assert(b * (0 * i - f * 0) == 0) by (nonlinear_arith);
    assert(c * (0 * h - e * 0) == 0) by (nonlinear_arith);
    assert(a * (1 * i - f * 0) == a * i) by (nonlinear_arith);
    assert(0 * (d * i - f * g) == 0) by (nonlinear_arith);
    assert(c * (d * 0 - 1 * g) == -(c * g)) by (nonlinear_arith);
    assert(a * (e * 1 - 0 * h) == a * e) by (nonlinear_arith);
    assert(b * (d * 1 - 0 * g) == b * d) by (nonlinear_arith);
    assert(0 * (d * h - e * g) == 0) by (nonlinear_arith);
}

/// A fraction of a fraction.
#[verifier::rlimit(1)]
pub proof fn lemma_real_divided_twice(a: real, b: real, c: real)
    by (nonlinear_arith)
    requires
        b != 0real,
        c != 0real,
    ensures
        a / (b * c) == (a / b) / c,
{
}

/// A determinant with a row of zeros is zero.
pub proof fn lemma_det3_zero_row(a: int, b: int, c: int, d: int, e: int, f: int)
    ensures
        det3(a, b, c, d, e, f, 0, 0, 0) == 0,
        det3(a, b, c, 0, 0, 0, d, e, f) == 0,
{
    assert(a * 0 == 0 && b * 0 == 0 && c * 0 == 0) by (nonlinear_arith);
}

/// Cramer's rule for three unknowns: the determinants with one column replaced by the
/// right-hand side `(p, q, r)` solve the system, up to the factor of the determinant.
pub proof fn lemma_cramer(
    a: int,
    b: int,
    c: int,
    d: int,
    e: int,
    f: int,
    g: int,
    h: int,
    i: int,
    p: int,
    q: int,
    r: int,
)
    ensures
        a * det3(p, b, c, q, e, f, r, h, i) + b * det3(a, p, c, d, q, f, g, r, i) + c * det3(
            a,
            b,
            p,
            d,
            e,
            q,
            g,
            h,
            r,
        ) == det3(a, b, c, d, e, f, g, h, i) * p,
        d * det3(p, b, c, q, e, f, r, h, i) + e * det3(a, p, c, d, q, f, g, r, i) + f * det3(
            a,
            b,
            p,
            d,
            e,
            q,
            g,
            h,
            r,
        ) == det3(a, b, c, d, e, f, g, h, i) * q,
        g * det3(p, b, c, q, e, f, r, h, i) + h * det3(a, p, c, d, q, f, g, r, i) + i * det3(
            a,
            b,
            p,
            d,
            e,
            q,
            g,
            h,
            r,
        ) == det3(a, b, c, d, e, f, g, h, i) * r,
{
    lemma_det3_flat(a, b, c, d, e, f, g, h, i);
    lemma_det3_flat(p, b, c, q, e, f, r, h, i);
    lemma_det3_flat(a, p, c, d, q, f, g, r, i);
    lemma_det3_flat(a, b, p, d, e, q, g, h, r);
    let n0 = det3(p, b, c, q, e, f, r, h, i);
    let n1 = det3(a, p, c, d, q, f, g, r, i);
    let n2 = det3(a, b, p, d, e, q, g, h, r);
    lemma_first_row_flat(a, b, c, d, e, f, g, h, i, p, q, r);
    lemma_second_row_flat(a, b, c, d, e, f, g, h, i, p, q, r);
    lemma_third_row_flat(a, b, c, d, e, f, g, h, i, p, q, r);
    lemma_distribute_six(a, p * (e * i), p * (f * h), b * (q * i), b * (f * r), c * (q * h), c * (e * r));
    lemma_distribute_six(b, a * (q * i), a * (f * r), p * (d * i), p * (f * g), c * (d * r), c * (q * g));
    lemma_distribute_six(c, a * (e * r), a * (q * h), b * (d * r), b * (q * g), p * (d * h), p * (e * g));
    lemma_distribute_six(d, p * (e * i), p * (f * h), b * (q * i), b * (f * r), c * (q * h), c * (e * r));
    lemma_distribute_six(e, a * (q * i), a * (f * r), p * (d * i), p * (f * g), c * (d * r), c * (q * g));
    lemma_distribute_six(f, a * (e * r), a * (q * h), b * (d * r), b * (q * g), p * (d * h), p * (e * g));
    lemma_distribute_six(g, p * (e * i), p * (f * h), b * (q * i), b * (f * r), c * (q * h), c * (e * r));
    lemma_distribute_six(h, a * (q * i), a * (f * r), p * (d * i), p * (f * g), c * (d * r), c * (q * g));
    lemma_distribute_six(i, a * (e * r), a * (q * h), b * (d * r), b * (q * g), p * (d * h), p * (e * g));
    let det = det3(a, b, c, d, e, f, g, h, i);
    lemma_distribute_six(p, a * (e * i), a * (f * h), b * (d * i), b * (f * g), c * (d * h), c * (e * g));
    lemma_distribute_six(q, a * (e * i), a * (f * h), b * (d * i), b * (f * g), c * (d * h), c * (e * g));
    lemma_distribute_six(r, a * (e * i), a * (f * h), b * (d * i), b * (f * g), c * (d * h), c * (e * g));
    assert(det * p == p * det) by (nonlinear_arith);
    assert(det * q == q * det) by (nonlinear_arith);
    assert(det * r == r * det) by (nonlinear_arith);
}

/// The product of two whole numbers, as a real number.
#[verifier::rlimit(1)]
pub proof fn lemma_real_of_product(a: int, b: int)
    by (nonlinear_arith)
    ensures
        (a * b) as real == a as real * b as real,
{
}

/// A product of real numbers with a sum or a difference, multiplied out.
#[verifier::rlimit(1)]
pub proof fn lemma_real_distribute(x: real, u: real, v: real)
    by (nonlinear_arith)
    ensures
        x * (u - v) == x * u - x * v,
        x * (u + v) == x * u + x * v,
        (u - v) * x == u * x - v * x,
        (u + v) * x == u * x + v * x,
{
}

/// A product of real numbers with a factor of zero.
#[verifier::rlimit(1)]
pub proof fn lemma_real_zero_product(a: real, b: real)
    by (nonlinear_arith)
    requires
        a == 0real || b == 0real,
    ensures
        a * b == 0real,
{
}

/// The square of a sum of real numbers.
#[verifier::rlimit(1)]
pub proof fn lemma_real_square_of_sum(a: real, b: real)
    by (nonlinear_arith)
    ensures
        (a + b) * (a + b) == a * a + 2real * (a * b) + b * b,
        b * b >= 0real,
{
}

/// Products of real numbers in another order.
#[verifier::rlimit(1)]
pub proof fn lemma_real_reorder(a: real, b: real, c: real)
    by (nonlinear_arith)
    ensures
        a * (b * c) == (a * b) * c,
        a * (b * c) == b * (a * c),
        (a * b) * (a * b) == (a * a) * (b * b),
{
}

/// A real number that was divided and is multiplied again.
#[verifier::rlimit(1)]
pub proof fn lemma_real_divided(a: real, d: real)
    by (nonlinear_arith)
    requires
        d != 0real,
    ensures
        d * (a / d) == a,
        (d * a) / d == a,
        d * a == 0real ==> a == 0real,
{
}

/// A sum of three fractions with one denominator.
#[verifier::rlimit(1)]
pub proof fn lemma_real_common_denominator(x: real, y: real, z: real, r: real)
    by (nonlinear_arith)
    requires
        r != 0real,
    ensures
        x / r + y / r + z / r == (x + y + z) / r,
        x / r - y / r == (x - y) / r,
{
}

/// A product with a fraction, as a fraction of the product.
#[verifier::rlimit(1)]
pub proof fn lemma_real_product_of_fraction(a: real, t: real, r: real, u: real)
    by (nonlinear_arith)
    requires
        r != 0real,
    ensures
        (a * (t / r)) * u == (a * (t * u)) / r,
        a * (1real / r) == a / r,
{
}

/// A product of real numbers is zero only where a factor is.
#[verifier::rlimit(1)]
pub proof fn lemma_real_no_zero_divisors(a: real, b: real)
    by (nonlinear_arith)
    requires
        a * b == 0real,
    ensures
        a == 0real || b == 0real,
{
}

/// The difference of two squares of real numbers.
#[verifier::rlimit(1)]
pub proof fn lemma_real_difference_of_squares(a: real, b: real)
    by (nonlinear_arith)
    ensures
        (a - b) * (a + b) == a * a - b * b,
        a * b == b * a,
{
}

/// A fraction times a multiple of its denominator.
#[verifier::rlimit(1)]
pub proof fn lemma_real_fraction_of_multiple(a: real, s: real, x: real)
    by (nonlinear_arith)
    requires
        s != 0real,
    ensures
        (a / s) * (s * x) == a * x,
        s * s != 0real,
{
}

/// The signs of squares, products and fractions of real numbers.
#[verifier::rlimit(1)]
pub proof fn lemma_real_signs(x: real, y: real)
    by (nonlinear_arith)
    ensures
        x * x >= 0real,
        x != 0real ==> x * x > 0real,
        x >= 0real && y >= 0real ==> x * y >= 0real,
        x >= 0real && y > 0real ==> x / y >= 0real,
        x > 0real && y > 0real ==> x * y > 0real,
{
}

} // verus!
