//! Least-squares fit of a polynomial of degree two or less to a list of points, in exact
//! arithmetic.
//!
//! The points are fitted as they are. A fit in rounded arithmetic brings them to another
//! origin and another scale first; in exact arithmetic that changes nothing, as the laws
//! of the module `shift` say. What stays of it is the guard: a fit is refused where an
//! axis spans nothing.

use crate::algebra::lemma_cramer;
use crate::algebra::lemma_det3_corner;
use crate::algebra::lemma_det3_unit_column;
use crate::algebra::lemma_real_divided_twice;
use crate::algebra::lemma_real_of_product;
use crate::existence::different_values;
use crate::existence::lemma_different_times_determine_the_fit;
use crate::existence::lemma_different_values_determine_the_fit;
use crate::existence::times_rise;
use crate::integer::Integer;
use crate::moments::Moments;
use crate::moments::PowerSums;
use crate::moments::cross_moment_upto;
use crate::moments::lemma_moment_zero_is_count;
use crate::moments::power_sums;
use crate::rational::Rational;
use crate::rational::lemma_quotient_product;
use crate::rational::quotient;
use crate::solve::Solution;
use crate::solve::Type;
use crate::solve::cofactor;
use crate::solve::denominator;
use crate::solve::det3;
use crate::solve::entry;
use crate::solve::numerator;
use crate::solve::solve;
use crate::solve::solved;
use crate::store::TimeSeriesStore;
use crate::store::sample_views;
use crate::store::window_entries;
use crate::window::TimeWindow;
use vstd::prelude::*;

verus! {

/// Why a fit was not made.
#[derive(Clone, Copy, Debug, PartialEq, Eq, Structural)]
pub enum FitError {
    /// The points are too few for the degree.
    InsufficientData,
    /// The points span nothing on one axis, or do not determine the polynomial.
    DegenerateWindow,
}

/// The coefficient of `x^j` in the polynomial of degree `d` fitted to the points.
pub open spec fn coefficient(points: Seq<(i64, i64)>, d: nat, j: nat) -> real {
    quotient(numerator(power_sums(points), d, j), denominator(power_sums(points), d))
}

/// The distance from `y` to the polynomial `(n0 + n1 x + n2 x^2) / den` at `x`, times
/// `den`.
pub open spec fn scaled_residual(den: int, n0: int, n1: int, n2: int, x: int, y: int) -> int {
    den * y - (n0 + n1 * x + n2 * (x * x))
}

/// The sum of the squares of `scaled_residual` over the first `n` points: the sum of
/// the squared residuals of the polynomial `(n0 + n1 x + n2 x^2) / den`, times the square
/// of `den`.
pub open spec fn scaled_residual_sum_upto(
    points: Seq<(i64, i64)>,
    den: int,
    n0: int,
    n1: int,
    n2: int,
    n: nat,
) -> int
    decreases n,
{
    if n == 0 {
        0
    } else {
        scaled_residual_sum_upto(points, den, n0, n1, n2, (n - 1) as nat) + scaled_residual(
            den,
            n0,
            n1,
            n2,
            points[n - 1].0 as int,
            points[n - 1].1 as int,
        ) * scaled_residual(den, n0, n1, n2, points[n - 1].0 as int, points[n - 1].1 as int)
    }
}

/// The sum over all points of the squared distance from `y` to the fitted polynomial at
/// `x`, times the square of the denominator of the coefficients.
pub open spec fn residual_numerator(points: Seq<(i64, i64)>, d: nat) -> int {
    let s = solved(power_sums(points), d);
    scaled_residual_sum_upto(points, s.den, s.n0, s.n1, s.n2, points.len())
}

/// The sum of the squared residuals of the fitted polynomial.
pub open spec fn residual_sum(points: Seq<(i64, i64)>, d: nat) -> real {
    quotient(
        residual_numerator(points, d),
        denominator(power_sums(points), d) * denominator(power_sums(points), d),
    )
}

/// The number of points less the number of coefficients.
pub open spec fn degrees_of_freedom(points: Seq<(i64, i64)>, d: nat) -> int {
    points.len() - d - 1
}

/// The residual sum of the fitted polynomial over the degrees of freedom.
pub open spec fn mean_squared_error(points: Seq<(i64, i64)>, d: nat) -> real {
    quotient(
        residual_numerator(points, d),
        denominator(power_sums(points), d) * denominator(power_sums(points), d)
            * degrees_of_freedom(points, d),
    )
}

/// Entry `(j, j)` of the inverse of the matrix of the normal equations.
pub open spec fn variance_factor(points: Seq<(i64, i64)>, d: nat, j: nat) -> real {
    quotient(cofactor(power_sums(points), d, j), denominator(power_sums(points), d))
}

/// The square of the standard error of the coefficient of `x^j`: entry `(j, j)` of the
/// inverse of the matrix of the normal equations, times the mean squared error.
pub open spec fn squared_error(points: Seq<(i64, i64)>, d: nat, j: nat) -> real {
    quotient(
        cofactor(power_sums(points), d, j) * residual_numerator(points, d),
        denominator(power_sums(points), d) * (denominator(power_sums(points), d) * denominator(
            power_sums(points),
            d,
        ) * degrees_of_freedom(points, d)),
    )
}

/// One coordinate of a point: `y` where `vertical` is set, else `x`.
pub open spec fn coordinate(p: (i64, i64), vertical: bool) -> i64 {
    if vertical {
        p.1
    } else {
        p.0
    }
}

/// The least coordinate among the first `n` points, `n` at least one.
pub open spec fn lowest_upto(points: Seq<(i64, i64)>, vertical: bool, n: nat) -> i64
    decreases n,
{
    if n <= 1 {
        coordinate(points[0], vertical)
    } else {
        let rest = lowest_upto(points, vertical, (n - 1) as nat);
        if coordinate(points[n - 1], vertical) < rest {
            coordinate(points[n - 1], vertical)
        } else {
            rest
        }
    }
}

/// The greatest coordinate among the first `n` points, `n` at least one.
pub open spec fn highest_upto(points: Seq<(i64, i64)>, vertical: bool, n: nat) -> i64
    decreases n,
{
    if n <= 1 {
        coordinate(points[0], vertical)
    } else {
        let rest = highest_upto(points, vertical, (n - 1) as nat);
        if coordinate(points[n - 1], vertical) > rest {
            coordinate(points[n - 1], vertical)
        } else {
            rest
        }
    }
}

/// The greatest coordinate of the points less the least: what an axis is divided by when
/// the points are scaled to a unit range.
pub open spec fn span(points: Seq<(i64, i64)>, vertical: bool) -> int {
    highest_upto(points, vertical, points.len()) - lowest_upto(points, vertical, points.len())
}

/// Whether the points are too few for a fit of degree `d`: fewer than three, or no more
/// than the number of coefficients.
pub open spec fn insufficient(points: Seq<(i64, i64)>, d: nat) -> bool {
    points.len() < 3 || points.len() <= d + 1
}

/// Whether the points, enough in number, still give no fit of degree `d`: an axis has
/// span zero, or the normal equations are singular.
pub open spec fn degenerate(points: Seq<(i64, i64)>, d: nat) -> bool {
    ||| span(points, false) == 0
    ||| span(points, true) == 0
    ||| denominator(power_sums(points), d) == 0
}

/// A fitted polynomial: its coefficients, lowest order first, and for each the square of
/// its standard error.
pub struct RegressionResult {
    pub coefficients: Vec<Rational>,
    pub squared_errors: Vec<Rational>,
}

impl RegressionResult {
    /// Whether the result is the fit of degree `d` to the points.
    pub open spec fn fits(&self, points: Seq<(i64, i64)>, d: nat) -> bool {
        &&& self.coefficients@.len() == d + 1
        &&& self.squared_errors@.len() == d + 1
        &&& forall|j: int|
            0 <= j <= d ==> (#[trigger] self.coefficients@[j])@ == coefficient(points, d, j as nat)
        &&& forall|j: int|
            0 <= j <= d ==> (#[trigger] self.squared_errors@[j])@ == squared_error(
                points,
                d,
                j as nat,
            )
    }
}

/// Whether every point has the same coordinate on the axis.
fn spans_nothing(points: &Vec<(i64, i64)>, vertical: bool) -> (r: bool)
    requires
        points.len() >= 1,
    ensures
        r == (span(points@, vertical) == 0),
{
    let first: i64 = if vertical {
        points[0].1
    } else {
        points[0].0
    };
    let mut low: i64 = first;
    let mut high: i64 = first;
    let mut i: usize = 1;
    while i < points.len()
        invariant
            1 <= i <= points.len(),
            low == lowest_upto(points@, vertical, i as nat),
            high == highest_upto(points@, vertical, i as nat),
        decreases points.len() - i,
    {
        let c: i64 = if vertical {
            points[i].1
        } else {
            points[i].0
        };
        if c < low {
            low = c;
        }
        if c > high {
            high = c;
        }
        i += 1;
    }
    low == high
}

/// The sum of the squared scaled residuals of the solution over the points.
fn residual_square_sum(points: &Vec<(i64, i64)>, s: &Solution) -> (r: Integer)
    ensures
        r@ == scaled_residual_sum_upto(points@, s.den@, s.n0@, s.n1@, s.n2@, points@.len()),
{
    let mut total = Integer::zero();
    let mut i: usize = 0;
    while i < points.len()
        invariant
            i <= points.len(),
            total@ == scaled_residual_sum_upto(points@, s.den@, s.n0@, s.n1@, s.n2@, i as nat),
        decreases points.len() - i,
    {
        let x = Integer::from_i64(points[i].0);
        let y = Integer::from_i64(points[i].1);
        let value = s.n0.add(&s.n1.mul(&x)).add(&s.n2.mul(&x.mul(&x)));
        let residual = s.den.mul(&y).sub(&value);
        total = total.add(&residual.mul(&residual));
        i += 1;
    }
    total
}

/// What a fit of degree `d` to the points comes to: `InsufficientData` on fewer than
/// three points or no more points than coefficients; else `DegenerateWindow` where an
/// axis has span zero or the normal equations are singular; else the fitted polynomial.
pub open spec fn fit_outcome(
    r: Result<RegressionResult, FitError>,
    points: Seq<(i64, i64)>,
    d: nat,
) -> bool {
    &&& r == Err::<RegressionResult, FitError>(FitError::InsufficientData) <==> insufficient(
        points,
        d,
    )
    &&& r == Err::<RegressionResult, FitError>(FitError::DegenerateWindow) <==> !insufficient(
        points,
        d,
    ) && degenerate(points, d)
    &&& r is Ok ==> r->Ok_0.fits(points, d)
}

/// Fits a polynomial of kind `kind` to the points by least squares.
pub fn fit_samples(points: &Vec<(i64, i64)>, kind: Type) -> (r: Result<RegressionResult, FitError>)
    ensures
        fit_outcome(r, points@, kind.spec_degree()),
{
    let d: usize = kind.degree();
    let n: usize = points.len();
    if n < 3 || n <= d + 1 {
        return Err(FitError::InsufficientData);
    }
    if spans_nothing(points, false) || spans_nothing(points, true) {
        return Err(FitError::DegenerateWindow);
    }
    let moments = Moments::of(points);
    let s = solve(&moments, kind);
    if s.den.is_zero() {
        return Err(FitError::DegenerateWindow);
    }
    let residuals = residual_square_sum(points, &s);
    let freedom = Integer::from_u64((n - d - 1) as u64);
    let scale = s.den.mul(&s.den).mul(&freedom);
    proof {
        assert(s.den@ * s.den@ != 0) by (nonlinear_arith)
            requires
                s.den@ != 0,
        ;
        assert(s.den@ * s.den@ * freedom@ != 0) by (nonlinear_arith)
            requires
                s.den@ * s.den@ != 0,
                freedom@ != 0,
        ;
        assert(s.den@ * (s.den@ * s.den@ * freedom@) != 0) by (nonlinear_arith)
            requires
                s.den@ != 0,
                s.den@ * s.den@ * freedom@ != 0,
        ;
    }
    let mut coefficients: Vec<Rational> = Vec::new();
    let mut squared_errors: Vec<Rational> = Vec::new();
    coefficients.push(Rational::new(s.n0.duplicate(), s.den.duplicate()));
    squared_errors.push(Rational::new(s.c0.mul(&residuals), s.den.mul(&scale)));
    if d >= 1 {
        coefficients.push(Rational::new(s.n1.duplicate(), s.den.duplicate()));
        squared_errors.push(Rational::new(s.c1.mul(&residuals), s.den.mul(&scale)));
    }
    if d >= 2 {
        coefficients.push(Rational::new(s.n2.duplicate(), s.den.duplicate()));
        squared_errors.push(Rational::new(s.c2.mul(&residuals), s.den.mul(&scale)));
    }
    Ok(RegressionResult { coefficients, squared_errors })
}

/// The points of one channel: for each entry its time and the channel's value.
pub open spec fn channel_points(entries: Seq<(i64, Seq<i64>)>, channel: int) -> Seq<(i64, i64)> {
    Seq::new(entries.len(), |i: int| (entries[i].0, entries[i].1[channel]))
}

proof fn lemma_span_holds_the_points(points: Seq<(i64, i64)>, vertical: bool, n: nat, i: int)
    requires
        0 <= i < n,
    ensures
        lowest_upto(points, vertical, n) <= coordinate(points[i], vertical) <= highest_upto(
            points,
            vertical,
            n,
        ),
    decreases n,
{
    if n > 1 && i < n - 1 {
        lemma_span_holds_the_points(points, vertical, (n - 1) as nat, i);
    }
}

/// Points at different times, enough in number, fail to give a fit only where their
/// values are all the same.
pub proof fn lemma_different_times_leave_one_way_to_fail(points: Seq<(i64, i64)>, d: nat)
    requires
        d <= 2,
        times_rise(points),
        !insufficient(points, d),
    ensures
        degenerate(points, d) <==> span(points, true) == 0,
{
    lemma_different_times_determine_the_fit(points, d);
    lemma_span_holds_the_points(points, false, points.len(), 0);
    lemma_span_holds_the_points(points, false, points.len(), 1);
}

/// Fits a polynomial to one channel of the samples that the store holds in the window.
///
/// The samples of a store lie at different times, so the fit fails on enough samples
/// only where the values of the channel are all the same.
pub fn fit(
    data: &TimeSeriesStore,
    range: &TimeWindow,
    approximation_type: &Type,
    channel: usize,
) -> (r: Result<RegressionResult, FitError>)
    requires
        channel < data.arity(),
    ensures
        fit_outcome(
            r,
            channel_points(window_entries(data@, *range), channel as int),
            approximation_type.spec_degree(),
        ),
        times_rise(channel_points(window_entries(data@, *range), channel as int)),
        r == Err::<RegressionResult, FitError>(FitError::DegenerateWindow) <==> !insufficient(
            channel_points(window_entries(data@, *range), channel as int),
            approximation_type.spec_degree(),
        ) && span(channel_points(window_entries(data@, *range), channel as int), true) == 0,
{
    let samples = data.range_query(range);
    let mut points: Vec<(i64, i64)> = Vec::new();
    let mut i: usize = 0;
    while i < samples.len()
        invariant
            i <= samples.len(),
            points@.len() == i,
            forall|k: int|
                0 <= k < samples@.len() ==> (#[trigger] samples@[k]).values@.len() == data.arity(),
            channel < data.arity(),
            forall|k: int|
                0 <= k < i ==> #[trigger] points@[k] == (
                    samples@[k].time,
                    samples@[k].values@[channel as int],
                ),
        decreases samples.len() - i,
    {
        points.push((samples[i].time, samples[i].values[channel]));
        i += 1;
    }
    proof {
        let entries = sample_views(samples@);
        assert(points@ =~= channel_points(entries, channel as int));
        assert(times_rise(points@)) by {
            assert forall|a: int, b: int| 0 <= a < b < points@.len() implies points@[a].0
                < points@[b].0 by {
                assert(entries[a].0 < entries[b].0);
            }
        }
        if !insufficient(points@, approximation_type.spec_degree()) {
            lemma_different_times_leave_one_way_to_fail(points@, approximation_type.spec_degree());
        }
    }
    fit_samples(&points, *approximation_type)
}

/// A fit without its residuals: the coefficients of the polynomial, lowest order first,
/// and for each the entry of the diagonal of the inverse of the matrix of the normal
/// equations, which the mean squared error turns into the squared error.
pub struct Fit {
    pub coefficients: Vec<Rational>,
    pub variances: Vec<Rational>,
}

/// What solving for a polynomial of degree `d` through the points comes to. The fit
/// fails where the normal equations are singular, and only there; it does not fail
/// where the points hold as many different values of `x` as the polynomial has
/// coefficients.
pub open spec fn solve_outcome(r: Result<Fit, FitError>, points: Seq<(i64, i64)>, d: nat) -> bool {
    &&& r is Err <==> denominator(power_sums(points), d) == 0
    &&& r is Err ==> r->Err_0 == FitError::DegenerateWindow
    &&& forall|a: int, b: int, c: int| #[trigger] different_values(points, d, a, b, c) ==> r is Ok
    &&& r is Ok ==> {
        &&& r->Ok_0.coefficients@.len() == d + 1
        &&& r->Ok_0.variances@.len() == d + 1
        &&& forall|j: int|
            0 <= j <= d ==> (#[trigger] r->Ok_0.coefficients@[j])@ == coefficient(
                points,
                d,
                j as nat,
            )
        &&& forall|j: int|
            0 <= j <= d ==> (#[trigger] r->Ok_0.variances@[j])@ == variance_factor(
                points,
                d,
                j as nat,
            )
    }
}

/// Fits a polynomial of degree `polynomial_degree` to the points `(x, y)` by least
/// squares, and gives its coefficients with the diagonal of the inverse of the matrix of
/// the normal equations. No count of points is asked for.
pub fn polyfit_with_variances(
    x_values: &Vec<i64>,
    y_values: &Vec<i64>,
    polynomial_degree: usize,
) -> (r: Result<Fit, FitError>)
    requires
        x_values@.len() == y_values@.len(),
        polynomial_degree <= 2,
    ensures
        solve_outcome(r, x_values@.zip_with(y_values@), polynomial_degree as nat),
{
    let mut points: Vec<(i64, i64)> = Vec::new();
    let mut i: usize = 0;
    while i < x_values.len()
        invariant
            i <= x_values.len(),
            x_values@.len() == y_values@.len(),
            points@.len() == i,
            forall|k: int| 0 <= k < i ==> #[trigger] points@[k] == (x_values@[k], y_values@[k]),
        decreases x_values.len() - i,
    {
        points.push((x_values[i], y_values[i]));
        i += 1;
    }
    proof {
        assert(points@ =~= x_values@.zip_with(y_values@));
        assert forall|a: int, b: int, c: int| #[trigger]
            different_values(points@, polynomial_degree as nat, a, b, c) implies denominator(
            power_sums(points@),
            polynomial_degree as nat,
        ) != 0 by {
            lemma_different_values_determine_the_fit(points@, polynomial_degree as nat, a, b, c);
        }
    }
    let kind: Type = if polynomial_degree == 0 {
        Type::Constant
    } else if polynomial_degree == 1 {
        Type::Linear
    } else {
        Type::Quadratic
    };
    let s = solve(&Moments::of(&points), kind);
    if s.den.is_zero() {
        return Err(FitError::DegenerateWindow);
    }
    let mut coefficients: Vec<Rational> = Vec::new();
    let mut variances: Vec<Rational> = Vec::new();
    coefficients.push(Rational::new(s.n0.duplicate(), s.den.duplicate()));
    variances.push(Rational::new(s.c0.duplicate(), s.den.duplicate()));
    if polynomial_degree >= 1 {
        coefficients.push(Rational::new(s.n1.duplicate(), s.den.duplicate()));
        variances.push(Rational::new(s.c1.duplicate(), s.den.duplicate()));
    }
    if polynomial_degree >= 2 {
        coefficients.push(Rational::new(s.n2.duplicate(), s.den.duplicate()));
        variances.push(Rational::new(s.c2.duplicate(), s.den.duplicate()));
    }
    Ok(Fit { coefficients, variances })
}

/// Fits a polynomial of degree `polynomial_degree` to the points `(x, y)` by least
/// squares, and gives its coefficients, lowest order first. No count of points is asked
/// for: the fit fails where the normal equations are singular, and only there; it does
/// not fail where the points hold as many different values of `x` as the polynomial has
/// coefficients.
pub fn polyfit(x_values: &Vec<i64>, y_values: &Vec<i64>, polynomial_degree: usize) -> (r: Result<
    Vec<Rational>,
    FitError,
>)
    requires
        x_values@.len() == y_values@.len(),
        polynomial_degree <= 2,
    ensures
        r is Err <==> denominator(
            power_sums(x_values@.zip_with(y_values@)),
            polynomial_degree as nat,
        ) == 0,
        r is Err ==> r == Err::<Vec<Rational>, FitError>(FitError::DegenerateWindow),
        forall|a: int, b: int, c: int| #[trigger]
            different_values(x_values@.zip_with(y_values@), polynomial_degree as nat, a, b, c)
                ==> r is Ok,
        r is Ok ==> r->Ok_0@.len() == polynomial_degree + 1 && forall|j: int|
            0 <= j <= polynomial_degree ==> (#[trigger] r->Ok_0@[j])@ == coefficient(
                x_values@.zip_with(y_values@),
                polynomial_degree as nat,
                j as nat,
            ),
{
    match polyfit_with_variances(x_values, y_values, polynomial_degree) {
        Ok(fit) => Ok(fit.coefficients),
        Err(FitError::InsufficientData) => Err(FitError::DegenerateWindow),
        Err(FitError::DegenerateWindow) => Err(FitError::DegenerateWindow),
    }
}

/// The sum of the values of the first `n` points.
pub open spec fn value_sum_upto(points: Seq<(i64, i64)>, n: nat) -> int
    decreases n,
{
    if n == 0 {
        0
    } else {
        value_sum_upto(points, (n - 1) as nat) + points[n - 1].1
    }
}

proof fn lemma_cross_moment_zero_is_sum(points: Seq<(i64, i64)>, n: nat)
    ensures
        cross_moment_upto(points, 0, n) == value_sum_upto(points, n),
    decreases n,
{
    if n > 0 {
        lemma_cross_moment_zero_is_sum(points, (n - 1) as nat);
        let y: int = points[n - 1].1 as int;
        assert(1 * y == y) by (nonlinear_arith);
    }
}

/// The constant that is fitted to the points is the mean of their values: their sum
/// over their number.
pub proof fn lemma_constant_fit_is_mean(points: Seq<(i64, i64)>)
    ensures
        coefficient(points, 0, 0) == quotient(
            value_sum_upto(points, points.len()),
            points.len() as int,
        ),
{
    let q = power_sums(points);
    lemma_det3_corner(q.t0);
    lemma_det3_corner(q.s0);
    lemma_cross_moment_zero_is_sum(points, points.len());
    lemma_moment_zero_is_count(points, points.len());
}

/// A fit is determined by the points and the degree: two outcomes of a fit to the same
/// points with the same degree fail alike, or give the same coefficients with the same
/// squared errors.
pub proof fn lemma_fit_is_determined(
    points: Seq<(i64, i64)>,
    d: nat,
    first: Result<RegressionResult, FitError>,
    second: Result<RegressionResult, FitError>,
)
    requires
        fit_outcome(first, points, d),
        fit_outcome(second, points, d),
    ensures
        first is Ok <==> second is Ok,
        first is Err ==> first->Err_0 == second->Err_0,
        first is Ok ==> forall|j: int|
            0 <= j <= d ==> (#[trigger] first->Ok_0.coefficients@[j])@
                == second->Ok_0.coefficients@[j]@ && first->Ok_0.squared_errors@[j]@
                == second->Ok_0.squared_errors@[j]@,
{
    match first {
        Ok(_) => {},
        Err(FitError::InsufficientData) => {},
        Err(FitError::DegenerateWindow) => {},
    }
    match second {
        Ok(_) => {},
        Err(FitError::InsufficientData) => {},
        Err(FitError::DegenerateWindow) => {},
    }
}

/// The squared error of a coefficient is its entry of the inverse of the matrix of the
/// normal equations times the mean squared error, where the fit exists and degrees of
/// freedom are left.
pub proof fn lemma_squared_error_is_variance_times_error(points: Seq<(i64, i64)>, d: nat, j: nat)
    requires
        denominator(power_sums(points), d) != 0,
        degrees_of_freedom(points, d) != 0,
    ensures
        squared_error(points, d, j) == variance_factor(points, d, j) * mean_squared_error(
            points,
            d,
        ),
{
    let den = denominator(power_sums(points), d);
    let free = degrees_of_freedom(points, d);
    assert(den * den != 0) by (nonlinear_arith)
        requires
            den != 0,
    ;
    assert(den * den * free != 0) by (nonlinear_arith)
        requires
            den * den != 0,
            free != 0,
    ;
    lemma_quotient_product(
        cofactor(power_sums(points), d, j),
        den,
        residual_numerator(points, d),
        den * den * free,
    );
}

/// The mean squared error is the sum of the squared residuals over the degrees of
/// freedom, where the fit exists and degrees of freedom are left.
pub proof fn lemma_mean_squared_error_is_sum_over_freedom(points: Seq<(i64, i64)>, d: nat)
    requires
        denominator(power_sums(points), d) != 0,
        degrees_of_freedom(points, d) != 0,
    ensures
        mean_squared_error(points, d) == residual_sum(points, d) / (degrees_of_freedom(
            points,
            d,
        ) as real),
{
    let den = denominator(power_sums(points), d);
    let free = degrees_of_freedom(points, d);
    assert(den * den != 0) by (nonlinear_arith)
        requires
            den != 0,
    ;
    lemma_real_of_product(den * den, free);
    lemma_real_divided_twice(
        residual_numerator(points, d) as real,
        (den * den) as real,
        free as real,
    );
}

/// One where `j` is `r`, else zero: entry `(r, j)` of the unit matrix.
pub open spec fn unit(j: nat, r: nat) -> int {
    if j == r {
        1
    } else {
        0
    }
}

/// Column `j` of the inverse of the matrix of the normal equations, times the
/// determinant: the solution by determinants of the system whose right-hand side is
/// column `j` of the unit matrix.
pub open spec fn adjugate_column(q: PowerSums, d: nat, j: nat) -> (int, int, int) {
    (
        det3(
            unit(j, 0),
            entry(q, d, 0, 1),
            entry(q, d, 0, 2),
            unit(j, 1),
            entry(q, d, 1, 1),
            entry(q, d, 1, 2),
            unit(j, 2),
            entry(q, d, 2, 1),
            entry(q, d, 2, 2),
        ),
        det3(
            entry(q, d, 0, 0),
            unit(j, 0),
            entry(q, d, 0, 2),
            entry(q, d, 1, 0),
            unit(j, 1),
            entry(q, d, 1, 2),
            entry(q, d, 2, 0),
            unit(j, 2),
            entry(q, d, 2, 2),
        ),
        det3(
            entry(q, d, 0, 0),
            entry(q, d, 0, 1),
            unit(j, 0),
            entry(q, d, 1, 0),
            entry(q, d, 1, 1),
            unit(j, 1),
            entry(q, d, 2, 0),
            entry(q, d, 2, 1),
            unit(j, 2),
        ),
    )
}

/// The cofactors of the diagonal are the diagonal of the inverse of the matrix of the
/// normal equations, up to the factor of the determinant: the matrix takes
/// `adjugate_column` to the determinant at place `j` and to zero elsewhere, and the
/// cofactor of `j` is what stands at place `j` of that column.
pub proof fn lemma_cofactor_is_inverse_entry(points: Seq<(i64, i64)>, d: nat, j: nat)
    requires
        j <= 2,
    ensures
        ({
            let q = power_sums(points);
            let w = adjugate_column(q, d, j);
            &&& entry(q, d, 0, 0) * w.0 + entry(q, d, 0, 1) * w.1 + entry(q, d, 0, 2) * w.2
                == denominator(q, d) * unit(j, 0)
            &&& entry(q, d, 1, 0) * w.0 + entry(q, d, 1, 1) * w.1 + entry(q, d, 1, 2) * w.2
                == denominator(q, d) * unit(j, 1)
            &&& entry(q, d, 2, 0) * w.0 + entry(q, d, 2, 1) * w.1 + entry(q, d, 2, 2) * w.2
                == denominator(q, d) * unit(j, 2)
            &&& j == 0 ==> w.0 == cofactor(q, d, 0)
            &&& j == 1 ==> w.1 == cofactor(q, d, 1)
            &&& j == 2 ==> w.2 == cofactor(q, d, 2)
        }),
{
    let q = power_sums(points);
    lemma_cramer(
        entry(q, d, 0, 0),
        entry(q, d, 0, 1),
        entry(q, d, 0, 2),
        entry(q, d, 1, 0),
        entry(q, d, 1, 1),
        entry(q, d, 1, 2),
        entry(q, d, 2, 0),
        entry(q, d, 2, 1),
        entry(q, d, 2, 2),
        unit(j, 0),
        unit(j, 1),
        unit(j, 2),
    );
    lemma_det3_unit_column(
        entry(q, d, 0, 0),
        entry(q, d, 0, 1),
        entry(q, d, 0, 2),
        entry(q, d, 1, 0),
        entry(q, d, 1, 1),
        entry(q, d, 1, 2),
        entry(q, d, 2, 0),
        entry(q, d, 2, 1),
        entry(q, d, 2, 2),
    );
}

} // verus!
