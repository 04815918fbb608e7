//! A fitted polynomial in the units of the grid, and told in the quantities that a
//! reader of the plot asks for, with the errors carried over to first order.
//!
//! The fit is made in raw units: ticks of time and raw values. On the grid time is
//! counted in divisions of so many ticks, and a value in divisions of so many raw units
//! above the raw value that stands for zero.
//!
//! A constant stays as it is. A line `b + a x` is told by the time `-b / a` at which it
//! crosses zero, and its slope `a`; the error of the crossing comes from the errors of
//! both `b` and `a`. A parabola `c + b x + a x^2` is told by its value at
//! the vertex `c - b^2 / 4a`, the offset `b / 2a` of the vertex in time, and its
//! curvature `2a`.

use crate::algebra::lemma_real_common_denominator;
use crate::algebra::lemma_real_divided;
use crate::algebra::lemma_real_of_product;
use crate::algebra::lemma_real_product_of_fraction;
use crate::algebra::lemma_real_reorder;
use crate::algebra::lemma_real_signs;
use crate::config::Y;
use crate::integer::Integer;
use crate::moments::lemma_power_small;
use crate::moments::power;
use crate::rational::Rational;
use crate::rational::quotient;
use crate::regression::RegressionResult;
use crate::solve::Type;
use vstd::prelude::*;

verus! {

/// The real numbers that a list of fractions stands for.
pub open spec fn values_of(v: Seq<Rational>) -> Seq<real> {
    Seq::new(v.len(), |i: int| v[i]@)
}

/// Quantity `j` of the polynomial of degree `d` with the coefficients `c`, lowest order
/// first.
pub open spec fn transformed_coefficient(c: Seq<real>, d: nat, j: nat) -> real {
    if d == 0 {
        c[0]
    } else if d == 1 {
        if j == 0 {
            -c[0] / c[1]
        } else {
            c[1]
        }
    } else {
        if j == 0 {
            c[0] - (c[1] * c[1]) / (4real * c[2])
        } else if j == 1 {
            c[1] / (2real * c[2])
        } else {
            2real * c[2]
        }
    }
}

/// The squared error of quantity `j`, from the coefficients `c` and their squared
/// errors `s`: each squared error weighs in by the square of the derivative of the
/// quantity with respect to its coefficient.
pub open spec fn transformed_squared_error(c: Seq<real>, s: Seq<real>, d: nat, j: nat) -> real {
    if d == 0 {
        s[0]
    } else if d == 1 {
        if j == 0 {
            s[0] / (c[1] * c[1]) + (c[0] * c[0]) * s[1] / ((c[1] * c[1]) * (c[1] * c[1]))
        } else {
            s[1]
        }
    } else {
        let q = c[1] / c[2];
        if j == 0 {
            (q * q * (q * q)) / 16real * s[2] + (q * q) / 4real * s[1] + s[0]
        } else if j == 1 {
            (q * q) / (4real * (c[2] * c[2])) * s[2] + s[1] / (4real * (c[2] * c[2]))
        } else {
            4real * s[2]
        }
    }
}

proof fn lemma_square_not_zero(a: real)
    by (nonlinear_arith)
    requires
        a != 0real,
    ensures
        a * a != 0real,
{
}

/// Tells a fitted polynomial of kind `approximation_type` in the quantities of its kind.
/// There are none where the coefficient of the highest order is zero and the degree is
/// not: a level line crosses zero nowhere, and a line has no vertex.
pub fn transform_coefficients(
    coefficients: &Vec<Rational>,
    errors: &Vec<Rational>,
    approximation_type: &Type,
) -> (r: Option<RegressionResult>)
    requires
        coefficients@.len() == approximation_type.spec_degree() + 1,
        errors@.len() == approximation_type.spec_degree() + 1,
    ensures
        r is None <==> approximation_type.spec_degree() >= 1
            && coefficients@[approximation_type.spec_degree() as int]@ == 0real,
        r is Some ==> {
            let d = approximation_type.spec_degree();
            let c = values_of(coefficients@);
            let s = values_of(errors@);
            &&& r->Some_0.coefficients@.len() == d + 1
            &&& r->Some_0.squared_errors@.len() == d + 1
            &&& forall|j: int|
                0 <= j <= d ==> (#[trigger] r->Some_0.coefficients@[j])@ == transformed_coefficient(
                    c,
                    d,
                    j as nat,
                )
            &&& forall|j: int|
                0 <= j <= d ==> (#[trigger] r->Some_0.squared_errors@[j])@
                    == transformed_squared_error(c, s, d, j as nat)
        },
{
    let mut out: Vec<Rational> = Vec::new();
    let mut out_errors: Vec<Rational> = Vec::new();
    match approximation_type {
        Type::Constant => {
            out.push(coefficients[0].duplicate());
            out_errors.push(errors[0].duplicate());
        },
        Type::Linear => {
            let b = &coefficients[0];
            let a = &coefficients[1];
            if a.is_zero() {
                return None;
            }
            proof {
                lemma_square_not_zero(a@);
                lemma_square_not_zero(a@ * a@);
            }
            let aa = a.mul(a);
            out.push(b.neg().div(a));
            out.push(a.duplicate());
            out_errors.push(
                errors[0].div(&aa).add(&b.mul(b).mul(&errors[1]).div(&aa.mul(&aa))),
            );
            out_errors.push(errors[1].duplicate());
        },
        Type::Quadratic => {
            let c = &coefficients[0];
            let b = &coefficients[1];
            let a = &coefficients[2];
            if a.is_zero() {
                return None;
            }
            proof {
                lemma_square_not_zero(a@);
            }
            let two = Rational::from_i64(2);
            let four = Rational::from_i64(4);
            let sixteen = Rational::from_i64(16);
            let q = b.div(a);
            let qq = q.mul(&q);
            let aa4 = four.mul(&a.mul(a));
            out.push(c.sub(&b.mul(b).div(&four.mul(a))));
            out.push(b.div(&two.mul(a)));
            out.push(two.mul(a));
            out_errors.push(
                qq.mul(&qq).div(&sixteen).mul(&errors[2]).add(&qq.div(&four).mul(&errors[1])).add(
                    &errors[0],
                ),
            );
            out_errors.push(qq.div(&aa4).mul(&errors[2]).add(&errors[1].div(&aa4)));
            out_errors.push(four.mul(&errors[2]));
        },
    }
    Some(RegressionResult { coefficients: out, squared_errors: out_errors })
}

/// The squared errors of the quantities are not below zero where the squared errors of
/// the coefficients are not.
pub proof fn lemma_transformed_errors_are_not_negative(c: Seq<real>, s: Seq<real>, d: nat, j: nat)
    requires
        j <= d <= 2,
        c.len() == d + 1,
        s.len() == d + 1,
        d >= 1 ==> c[d as int] != 0real,
        forall|i: int| 0 <= i <= d ==> #[trigger] s[i] >= 0real,
    ensures
        transformed_squared_error(c, s, d, j) >= 0real,
{
    if d == 0 {
        assert(s[0] >= 0real);
    } else if d == 1 {
        let aa = c[1] * c[1];
        assert(s[0] >= 0real && s[1] >= 0real);
        lemma_real_signs(c[1], c[1]);
        lemma_real_signs(c[0], c[0]);
        lemma_real_signs(aa, aa);
        lemma_real_signs(c[0] * c[0], s[1]);
        lemma_real_signs(s[0], aa);
        lemma_real_signs((c[0] * c[0]) * s[1], aa * aa);
    } else {
        let q = c[1] / c[2];
        let aa = c[2] * c[2];
        assert(s[0] >= 0real && s[1] >= 0real && s[2] >= 0real);
        lemma_real_signs(q, q);
        lemma_real_signs(q * q, q * q);
        lemma_real_signs(c[2], c[2]);
        lemma_real_signs((q * q * (q * q)) / 16real, s[2]);
        lemma_real_signs((q * q) / 4real, s[1]);
        lemma_real_signs(q * q, 4real * aa);
        lemma_real_signs((q * q) / (4real * aa), s[2]);
        lemma_real_signs(s[1], 4real * aa);
    }
}

/// What the coefficient of `t^j` is multiplied by when time goes from ticks to divisions
/// of `ticks` ticks, and values from raw units to divisions of `per_division` raw units.
pub open spec fn unit_factor(j: nat, ticks: u32, per_division: i64) -> real {
    quotient(power(ticks as int, j), per_division as int)
}

/// The coefficient of `t^j` in the units of the grid, from the coefficients `c` in raw
/// units.
pub open spec fn rescaled_coefficient(c: Seq<real>, j: nat, ticks: u32, scale: Y) -> real {
    c[j as int] * unit_factor(j, ticks, scale.raw_per_division) - (if j == 0 {
        quotient(scale.raw_offset as int, scale.raw_per_division as int)
    } else {
        0real
    })
}

/// The squared error of the coefficient of `t^j` in the units of the grid, from the
/// squared errors `s` in raw units.
pub open spec fn rescaled_squared_error(s: Seq<real>, j: nat, ticks: u32, scale: Y) -> real {
    s[j as int] * (unit_factor(j, ticks, scale.raw_per_division) * unit_factor(
        j,
        ticks,
        scale.raw_per_division,
    ))
}

/// Brings a fitted polynomial from raw units to the units of the grid: time in divisions
/// of `ticks_per_division` ticks, values in divisions on the scale `scale`.
pub fn to_grid_units(
    coefficients: &Vec<Rational>,
    squared_errors: &Vec<Rational>,
    ticks_per_division: u32,
    scale: &Y,
) -> (r: RegressionResult)
    requires
        coefficients@.len() == squared_errors@.len(),
        scale.raw_per_division != 0,
    ensures
        r.coefficients@.len() == coefficients@.len(),
        r.squared_errors@.len() == coefficients@.len(),
        forall|j: int|
            0 <= j < coefficients@.len() ==> (#[trigger] r.coefficients@[j])@
                == rescaled_coefficient(
                values_of(coefficients@),
                j as nat,
                ticks_per_division,
                *scale,
            ),
        forall|j: int|
            0 <= j < coefficients@.len() ==> (#[trigger] r.squared_errors@[j])@
                == rescaled_squared_error(
                values_of(squared_errors@),
                j as nat,
                ticks_per_division,
                *scale,
            ),
{
    let ticks = Integer::from_u64(ticks_per_division as u64);
    let mut out: Vec<Rational> = Vec::new();
    let mut out_errors: Vec<Rational> = Vec::new();
    let mut weight = Integer::from_i64(1);
    let mut j: usize = 0;
    while j < coefficients.len()
        invariant
            j <= coefficients@.len(),
            coefficients@.len() == squared_errors@.len(),
            scale.raw_per_division != 0,
            ticks@ == ticks_per_division,
            weight@ == power(ticks_per_division as int, j as nat),
            out@.len() == j,
            out_errors@.len() == j,
            forall|k: int|
                0 <= k < j ==> (#[trigger] out@[k])@ == rescaled_coefficient(
                    values_of(coefficients@),
                    k as nat,
                    ticks_per_division,
                    *scale,
                ),
            forall|k: int|
                0 <= k < j ==> (#[trigger] out_errors@[k])@ == rescaled_squared_error(
                    values_of(squared_errors@),
                    k as nat,
                    ticks_per_division,
                    *scale,
                ),
        decreases coefficients.len() - j,
    {
        let factor = Rational::new(weight.duplicate(), Integer::from_i64(scale.raw_per_division));
        let shift = if j == 0 {
            Rational::from_ratio(scale.raw_offset, scale.raw_per_division)
        } else {
            Rational::from_i64(0)
        };
        out.push(coefficients[j].mul(&factor).sub(&shift));
        out_errors.push(squared_errors[j].mul(&factor.mul(&factor)));
        weight = ticks.mul(&weight);
        j += 1;
    }
    RegressionResult { coefficients: out, squared_errors: out_errors }
}

/// The polynomial in the units of the grid is the polynomial in raw units: at every time
/// it gives the value that the polynomial in raw units gives, told in divisions.
pub proof fn lemma_grid_units_keep_the_polynomial(
    c0: real,
    c1: real,
    c2: real,
    t: real,
    ticks: u32,
    scale: Y,
)
    requires
        ticks > 0,
        scale.raw_per_division != 0,
    ensures
        ({
            let c = seq![c0, c1, c2];
            let u = t / (ticks as real);
            rescaled_coefficient(c, 0, ticks, scale) + rescaled_coefficient(c, 1, ticks, scale) * u
                + rescaled_coefficient(c, 2, ticks, scale) * (u * u) == ((c0 + c1 * t + c2 * (t
                * t)) - scale.raw_offset as real) / (scale.raw_per_division as real)
        }),
{
    let c = seq![c0, c1, c2];
    let big = ticks as real;
    let per = scale.raw_per_division as real;
    let off = scale.raw_offset as real;
    let u = t / big;
    lemma_power_small(ticks as int);
    lemma_real_of_product(ticks as int, ticks as int);
    lemma_real_divided(t, big);
    lemma_real_product_of_fraction(c0, 1real, per, 1real);
    lemma_real_product_of_fraction(c1, big, per, u);
    lemma_real_product_of_fraction(c2, big * big, per, u * u);
    lemma_real_reorder(big, u, 1real);
    assert((big * big) * (u * u) == (big * u) * (big * u)) by {
        lemma_real_reorder(big, u, u);
        lemma_real_reorder(big, big, u * u);
        lemma_real_reorder(big, u, big * u);
    }
    lemma_real_common_denominator(c0, c1 * t, c2 * (t * t), per);
    lemma_real_common_denominator(c0 + c1 * t + c2 * (t * t), off, 0real, per);
}

} // verus!
