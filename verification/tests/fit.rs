use rt_plot::basis::transform_coefficients;
use rt_plot::integer::Integer;
use rt_plot::moments::Moments;
use rt_plot::solve::solve;
use rt_plot::rational::Rational;
use rt_plot::regression::fit;
use rt_plot::regression::fit_samples;
use rt_plot::regression::polyfit;
use rt_plot::regression::polyfit_with_variances;
use rt_plot::regression::FitError;
use rt_plot::solve::Type;
use rt_plot::store::TimeSeriesStore;
use rt_plot::window::TimeWindow;

fn store_of(samples: &[(i64, i64)]) -> TimeSeriesStore {
    let mut store = TimeSeriesStore::new(1);
    for &(time, value) in samples {
        store.insert(time, vec![value]).unwrap();
    }
    store
}

fn is(value: &Rational, num: i64, den: i64) -> bool {
    value.equals(&Rational::from_ratio(num, den))
}

#[test]
fn line_through_three_points_is_found_exactly() {
    let store = store_of(&[(0, 0), (1, 1), (2, 2)]);
    let window = TimeWindow { start: 0, end: 3 };
    let result = fit(&store, &window, &Type::Linear, 0).unwrap();
    assert_eq!(result.coefficients.len(), 2);
    assert!(is(&result.coefficients[0], 0, 1));
    assert!(is(&result.coefficients[1], 1, 1));
    assert_eq!(result.squared_errors.len(), 2);
    assert!(is(&result.squared_errors[0], 0, 1));
    assert!(is(&result.squared_errors[1], 0, 1));
}

#[test]
fn window_is_half_open() {
    let store = store_of(&[(0, 0), (1, 1), (2, 2)]);
    let window = TimeWindow { start: 0, end: 2 };
    let result = fit(&store, &window, &Type::Linear, 0);
    assert_eq!(result.err(), Some(FitError::InsufficientData));
}

#[test]
fn constant_series_solves_to_its_value() {
    let coefficients = polyfit(&vec![0, 1, 2], &vec![1, 1, 1], 0).unwrap();
    assert_eq!(coefficients.len(), 1);
    assert!(is(&coefficients[0], 1, 1));
}

#[test]
fn constant_series_has_no_span_to_fit() {
    let store = store_of(&[(0, 1), (1, 1), (2, 1)]);
    let window = TimeWindow { start: 0, end: 3 };
    let result = fit(&store, &window, &Type::Constant, 0);
    assert_eq!(result.err(), Some(FitError::DegenerateWindow));
}

#[test]
fn two_points_are_too_few() {
    let store = store_of(&[(0, 4), (1, 9), (7, 2)]);
    let window = TimeWindow { start: 0, end: 2 };
    for kind in [Type::Constant, Type::Linear, Type::Quadratic] {
        let result = fit(&store, &window, &kind, 0);
        assert_eq!(result.err(), Some(FitError::InsufficientData));
    }
}

#[test]
fn three_points_are_too_few_for_a_parabola() {
    let points = vec![(0, 1), (1, 3), (2, 9)];
    assert_eq!(fit_samples(&points, Type::Quadratic).err(), Some(FitError::InsufficientData));
    assert!(fit_samples(&points, Type::Linear).is_ok());
    assert!(fit_samples(&points, Type::Constant).is_ok());
}

#[test]
fn identical_times_are_degenerate() {
    let points = vec![(5, 1), (5, 2), (5, 3)];
    assert_eq!(fit_samples(&points, Type::Constant).err(), Some(FitError::DegenerateWindow));
    assert_eq!(fit_samples(&points, Type::Linear).err(), Some(FitError::DegenerateWindow));
    let more = vec![(5, 1), (5, 2), (5, 3), (5, 4)];
    assert_eq!(fit_samples(&more, Type::Quadratic).err(), Some(FitError::DegenerateWindow));
}

#[test]
fn identical_values_are_degenerate() {
    let points = vec![(1, 7), (2, 7), (3, 7), (4, 7)];
    for kind in [Type::Constant, Type::Linear, Type::Quadratic] {
        assert_eq!(fit_samples(&points, kind).err(), Some(FitError::DegenerateWindow));
    }
}

#[test]
fn no_points_are_too_few() {
    let points: Vec<(i64, i64)> = Vec::new();
    assert_eq!(fit_samples(&points, Type::Constant).err(), Some(FitError::InsufficientData));
}

#[test]
fn constant_fit_is_the_mean() {
    let points = vec![(0, 1), (1, 2), (2, 2), (3, 5)];
    let result = fit_samples(&points, Type::Constant).unwrap();
    assert_eq!(result.coefficients.len(), 1);
    assert!(is(&result.coefficients[0], 5, 2));
    assert!(is(&result.squared_errors[0], 3, 4));
}

#[test]
fn linear_fit_of_scattered_points() {
    let points = vec![(0, 1), (1, 2), (2, 2), (3, 5)];
    let result = fit_samples(&points, Type::Linear).unwrap();
    assert!(is(&result.coefficients[0], 7, 10));
    assert!(is(&result.coefficients[1], 6, 5));
    assert!(is(&result.squared_errors[0], 63, 100));
    assert!(is(&result.squared_errors[1], 9, 50));
}

#[test]
fn quadratic_fit_of_scattered_points() {
    let points = vec![(0, 1), (1, 2), (2, 2), (3, 5), (4, 4)];
    let result = fit_samples(&points, Type::Quadratic).unwrap();
    assert_eq!(result.coefficients.len(), 3);
    assert!(is(&result.coefficients[0], 6, 7));
    assert!(is(&result.coefficients[1], 83, 70));
    assert!(is(&result.coefficients[2], -1, 14));
    assert!(is(&result.squared_errors[0], 1426, 1225));
    assert!(is(&result.squared_errors[1], 2001, 1225));
    assert!(is(&result.squared_errors[2], 23, 245));
}

#[test]
fn parabola_through_four_points_is_found_exactly() {
    let points = vec![(0, 1), (1, 3), (2, 9), (3, 19)];
    let result = fit_samples(&points, Type::Quadratic).unwrap();
    assert!(is(&result.coefficients[0], 1, 1));
    assert!(is(&result.coefficients[1], 0, 1));
    assert!(is(&result.coefficients[2], 2, 1));
    for error in &result.squared_errors {
        assert!(error.is_zero());
    }
}

#[test]
fn large_times_do_not_disturb_the_fit() {
    let points = vec![(1000000, 5), (1000010, 7), (1000020, 12), (1000030, 13)];
    let result = fit_samples(&points, Type::Linear).unwrap();
    assert!(is(&result.coefficients[0], -2899951, 10));
    assert!(is(&result.coefficients[1], 29, 100));
    assert!(is(&result.squared_errors[0], 540016200189, 200));
    assert!(is(&result.squared_errors[1], 27, 10000));
}

#[test]
fn fit_is_repeatable() {
    let store = store_of(&[(0, 1), (1, 2), (2, 2), (3, 5), (4, 4)]);
    let window = TimeWindow { start: 0, end: 5 };
    let first = fit(&store, &window, &Type::Quadratic, 0).unwrap();
    let second = fit(&store, &window, &Type::Quadratic, 0).unwrap();
    for j in 0..3 {
        assert!(first.coefficients[j].equals(&second.coefficients[j]));
        assert!(first.squared_errors[j].equals(&second.squared_errors[j]));
    }
}

#[test]
fn fit_reads_the_chosen_channel_in_the_window() {
    let mut store = TimeSeriesStore::new(2);
    for (time, a, b) in [(0, 9, 1), (1, 9, 2), (2, 8, 2), (3, 9, 5), (4, 100, 100)] {
        store.insert(time, vec![a, b]).unwrap();
    }
    let window = TimeWindow { start: 0, end: 4 };
    let result = fit(&store, &window, &Type::Linear, 1).unwrap();
    assert!(is(&result.coefficients[0], 7, 10));
    assert!(is(&result.coefficients[1], 6, 5));
}

#[test]
fn polyfit_fails_on_points_that_do_not_determine_the_line() {
    let result = polyfit(&vec![3, 3, 3], &vec![1, 2, 3], 1);
    assert_eq!(result.err(), Some(FitError::DegenerateWindow));
    assert!(polyfit(&vec![3, 3, 3], &vec![1, 2, 3], 0).is_ok());
}

#[test]
fn polyfit_solves_each_degree() {
    let x = vec![0, 1, 2, 3, 4];
    let y = vec![1, 2, 2, 5, 4];
    let constant = polyfit(&x, &y, 0).unwrap();
    assert!(is(&constant[0], 14, 5));
    let line = polyfit(&x, &y, 1).unwrap();
    assert!(is(&line[0], 1, 1));
    assert!(is(&line[1], 9, 10));
    let parabola = polyfit(&x, &y, 2).unwrap();
    assert!(is(&parabola[0], 6, 7));
    assert!(is(&parabola[1], 83, 70));
    assert!(is(&parabola[2], -1, 14));
}

#[test]
fn constant_is_told_as_it_is() {
    let c = vec![Rational::from_ratio(5, 2)];
    let s = vec![Rational::from_ratio(3, 4)];
    let told = transform_coefficients(&c, &s, &Type::Constant).unwrap();
    assert!(is(&told.coefficients[0], 5, 2));
    assert!(is(&told.squared_errors[0], 3, 4));
}

#[test]
fn line_is_told_by_crossing_and_slope() {
    let c = vec![Rational::from_ratio(7, 10), Rational::from_ratio(6, 5)];
    let s = vec![Rational::from_ratio(63, 100), Rational::from_ratio(9, 50)];
    let told = transform_coefficients(&c, &s, &Type::Linear).unwrap();
    assert!(is(&told.coefficients[0], -7, 12));
    assert!(is(&told.coefficients[1], 6, 5));
    assert!(is(&told.squared_errors[0], 553, 1152));
    assert!(is(&told.squared_errors[1], 9, 50));
}

#[test]
fn error_of_the_slope_reaches_the_crossing() {
    let c = vec![Rational::from_i64(1), Rational::from_i64(1)];
    let s = vec![Rational::from_i64(0), Rational::from_i64(1)];
    let told = transform_coefficients(&c, &s, &Type::Linear).unwrap();
    assert!(is(&told.coefficients[0], -1, 1));
    assert!(is(&told.squared_errors[0], 1, 1));
    assert!(is(&told.squared_errors[1], 1, 1));
    let c = vec![Rational::from_i64(3), Rational::from_i64(-2)];
    let s = vec![Rational::from_i64(5), Rational::from_i64(7)];
    let told = transform_coefficients(&c, &s, &Type::Linear).unwrap();
    assert!(is(&told.coefficients[0], 3, 2));
    assert!(is(&told.squared_errors[0], 83, 16));
}

#[test]
fn parabola_is_told_by_vertex_and_curvature() {
    let c = vec![Rational::from_i64(1), Rational::from_i64(4), Rational::from_i64(2)];
    let s = vec![Rational::from_i64(3), Rational::from_i64(5), Rational::from_i64(7)];
    let told = transform_coefficients(&c, &s, &Type::Quadratic).unwrap();
    assert!(is(&told.coefficients[0], -1, 1));
    assert!(is(&told.coefficients[1], 1, 1));
    assert!(is(&told.coefficients[2], 4, 1));
    assert!(is(&told.squared_errors[0], 15, 1));
    assert!(is(&told.squared_errors[1], 33, 16));
    assert!(is(&told.squared_errors[2], 28, 1));
}

#[test]
fn level_line_has_no_crossing() {
    let c = vec![Rational::from_i64(3), Rational::from_i64(0)];
    let s = vec![Rational::from_i64(1), Rational::from_i64(1)];
    assert!(transform_coefficients(&c, &s, &Type::Linear).is_none());
    let c = vec![Rational::from_i64(3), Rational::from_i64(2), Rational::from_i64(0)];
    let s = vec![Rational::from_i64(1), Rational::from_i64(1), Rational::from_i64(1)];
    assert!(transform_coefficients(&c, &s, &Type::Quadratic).is_none());
}

fn residual_sum(points: &[(i64, i64)], coefficients: &[Rational]) -> Rational {
    let mut total = Rational::from_i64(0);
    for &(x, y) in points {
        let x = Rational::from_i64(x);
        let mut value = Rational::from_i64(0);
        let mut power = Rational::from_i64(1);
        for c in coefficients {
            value = value.add(&c.mul(&power));
            power = power.mul(&x);
        }
        let residual = Rational::from_i64(y).sub(&value);
        total = total.add(&residual.mul(&residual));
    }
    total
}

#[test]
fn fitted_polynomial_has_the_smallest_residual_sum() {
    let points = vec![(0, 1), (1, 2), (2, 2), (3, 5), (4, 4), (7, -3)];
    for kind in [Type::Constant, Type::Linear, Type::Quadratic] {
        let fitted = fit_samples(&points, kind).unwrap().coefficients;
        let best = residual_sum(&points, &fitted);
        for j in 0..fitted.len() {
            for step in [Rational::from_ratio(1, 1000), Rational::from_ratio(-1, 7), Rational::from_i64(3)] {
                let mut other: Vec<Rational> = fitted.iter().map(|c| c.duplicate()).collect();
                other[j] = other[j].add(&step);
                let worse = residual_sum(&points, &other);
                assert!(best.less_than(&worse));
            }
        }
    }
}

#[test]
fn residual_sum_of_the_fit_is_what_the_errors_come_from() {
    let points = vec![(0, 1), (1, 2), (2, 2), (3, 5)];
    let fitted = fit_samples(&points, Type::Linear).unwrap();
    assert!(is(&residual_sum(&points, &fitted.coefficients), 9, 5));
    // Entry (1, 1) of the inverse of the normal matrix is 4/20, and two degrees of
    // freedom are left.
    let expected = Rational::from_ratio(4, 20).mul(&Rational::from_ratio(9, 5)).div(&Rational::from_i64(2));
    assert!(fitted.squared_errors[1].equals(&expected));
}

fn whole(value: &Integer, expected: i64) -> bool {
    value.equals(&Integer::from_i64(expected))
}

#[test]
fn power_sums_are_summed_exactly() {
    let m = Moments::of(&vec![(1, 2), (2, 3), (3, 5)]);
    assert!(whole(&m.s0, 3));
    assert!(whole(&m.s1, 6));
    assert!(whole(&m.s2, 14));
    assert!(whole(&m.s3, 36));
    assert!(whole(&m.s4, 98));
    assert!(whole(&m.t0, 10));
    assert!(whole(&m.t1, 23));
    assert!(whole(&m.t2, 59));
    let none = Moments::of(&Vec::new());
    assert!(none.s0.is_zero() && none.s4.is_zero() && none.t2.is_zero());
}

#[test]
fn power_sums_of_large_numbers_do_not_overflow() {
    let m = Moments::of(&vec![(i64::MAX, i64::MIN), (i64::MIN, i64::MAX)]);
    assert!(whole(&m.s1, -1));
    assert!(whole(&m.t0, -1));
    assert!(!m.s4.is_negative());
    assert!(m.t1.is_negative());
    let big = Integer::from_i64(i64::MAX);
    let square = big.mul(&big);
    let low = Integer::from_i64(i64::MIN);
    assert!(m.s2.equals(&square.add(&low.mul(&low))));
}

#[test]
fn normal_equations_are_solved_by_determinants() {
    let m = Moments::of(&vec![(1, 2), (2, 3), (3, 5)]);
    let line = solve(&m, Type::Linear);
    assert!(whole(&line.den, 6));
    assert!(whole(&line.n0, 2));
    assert!(whole(&line.n1, 9));
    assert!(whole(&line.n2, 0));
    assert!(whole(&line.c0, 14));
    assert!(whole(&line.c1, 3));
    let level = solve(&m, Type::Constant);
    assert!(whole(&level.den, 3));
    assert!(whole(&level.n0, 10));
    assert!(whole(&level.n1, 0));
    assert!(whole(&level.n2, 0));
    assert!(whole(&level.c0, 1));
    let parabola = solve(&m, Type::Quadratic);
    assert!(whole(&parabola.den, 4));
    assert!(whole(&parabola.n0, 8));
    assert!(whole(&parabola.n1, -2));
    assert!(whole(&parabola.n2, 2));
}

#[test]
fn kinds_have_their_degrees() {
    assert_eq!(Type::Constant.degree(), 0);
    assert_eq!(Type::Linear.degree(), 1);
    assert_eq!(Type::Quadratic.degree(), 2);
}

#[test]
fn polyfit_gives_the_diagonal_of_the_inverse_normal_matrix() {
    let x = vec![0, 1, 2, 3];
    let y = vec![1, 2, 2, 5];
    let line = polyfit_with_variances(&x, &y, 1).unwrap();
    assert_eq!(line.coefficients.len(), 2);
    assert_eq!(line.variances.len(), 2);
    assert!(is(&line.coefficients[0], 7, 10));
    assert!(is(&line.coefficients[1], 6, 5));
    assert!(is(&line.variances[0], 7, 10));
    assert!(is(&line.variances[1], 1, 5));
    let level = polyfit_with_variances(&x, &y, 0).unwrap();
    assert!(is(&level.coefficients[0], 5, 2));
    assert!(is(&level.variances[0], 1, 4));
    let parabola = polyfit_with_variances(&vec![0, 1, 2, 3, 4], &vec![1, 2, 2, 5, 4], 2).unwrap();
    assert!(is(&parabola.variances[0], 31, 35));
    assert!(is(&parabola.variances[1], 87, 70));
    assert!(is(&parabola.variances[2], 1, 14));
}

#[test]
fn variances_times_the_mean_squared_error_are_the_squared_errors() {
    let points = vec![(0, 1), (1, 2), (2, 2), (3, 5), (4, 4)];
    let x: Vec<i64> = points.iter().map(|p| p.0).collect();
    let y: Vec<i64> = points.iter().map(|p| p.1).collect();
    let solved = polyfit_with_variances(&x, &y, 2).unwrap();
    let fitted = fit_samples(&points, Type::Quadratic).unwrap();
    let mean_squared_error = residual_sum(&points, &fitted.coefficients).div(&Rational::from_i64(2));
    for j in 0..3 {
        assert!(solved.coefficients[j].equals(&fitted.coefficients[j]));
        assert!(solved.variances[j].mul(&mean_squared_error).equals(&fitted.squared_errors[j]));
    }
}

#[test]
fn polyfit_succeeds_on_enough_different_values_in_any_order() {
    let parabola = polyfit_with_variances(&vec![2, 2, 0, 1], &vec![4, 6, 1, 2], 2);
    assert!(parabola.is_ok());
    assert!(polyfit(&vec![5, 5, 9], &vec![1, 2, 3], 1).is_ok());
    assert!(polyfit(&vec![5], &vec![1], 0).is_ok());
    assert_eq!(
        polyfit_with_variances(&vec![5, 5, 9, 9], &vec![1, 2, 3, 4], 2).err(),
        Some(FitError::DegenerateWindow)
    );
    assert_eq!(polyfit(&Vec::new(), &Vec::new(), 0).err(), Some(FitError::DegenerateWindow));
}

#[test]
fn fit_follows_a_shift_of_the_points() {
    let points = vec![(0, 1), (1, 2), (2, 2), (3, 5), (4, 4)];
    let (h, k) = (1_000_000i64, -7i64);
    let moved: Vec<(i64, i64)> = points.iter().map(|p| (p.0 + h, p.1 + k)).collect();
    let big = Rational::from_i64(h);
    for kind in [Type::Constant, Type::Linear, Type::Quadratic] {
        let mut b = fit_samples(&points, kind).unwrap().coefficients;
        while b.len() < 3 {
            b.push(Rational::from_i64(0));
        }
        let expected = vec![
            b[0].sub(&b[1].mul(&big)).add(&b[2].mul(&big.mul(&big))).add(&Rational::from_i64(k)),
            b[1].sub(&Rational::from_i64(2).mul(&b[2].mul(&big))),
            b[2].duplicate(),
        ];
        let g = fit_samples(&moved, kind).unwrap().coefficients;
        for j in 0..g.len() {
            assert!(g[j].equals(&expected[j]));
        }
    }
}

#[test]
fn fit_follows_a_change_of_scale() {
    let points = vec![(0, 1), (1, 2), (2, 2), (3, 5), (4, 4)];
    let (s, t) = (-3i64, 5i64);
    let stretched: Vec<(i64, i64)> = points.iter().map(|p| (p.0 * s, p.1 * t)).collect();
    for kind in [Type::Constant, Type::Linear, Type::Quadratic] {
        let b = fit_samples(&points, kind).unwrap().coefficients;
        let g = fit_samples(&stretched, kind).unwrap().coefficients;
        let mut power = Rational::from_i64(1);
        for j in 0..g.len() {
            let expected = Rational::from_i64(t).mul(&b[j]).div(&power);
            assert!(g[j].equals(&expected));
            power = power.mul(&Rational::from_i64(s));
        }
    }
}
