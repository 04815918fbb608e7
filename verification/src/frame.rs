//! What one frame shows of a fit: the graph of the fitted polynomial, and the numbers
//! that its label tells.

use crate::basis::rescaled_coefficient;
use crate::basis::rescaled_squared_error;
use crate::basis::to_grid_units;
use crate::basis::transform_coefficients;
use crate::basis::transformed_coefficient;
use crate::basis::transformed_squared_error;
use crate::basis::values_of;
use crate::config::DataConfig;
use crate::config::Y;
use crate::projector::Color;
use crate::projector::Vertex;
use crate::projector::generate_polynomial_graph;
use crate::projector::overlay_point;
use crate::rational::Rational;
use crate::regression::FitError;
use crate::regression::channel_points;
use crate::regression::coefficient;
use crate::regression::degenerate;
use crate::regression::fit;
use crate::regression::insufficient;
use crate::regression::span;
use crate::regression::squared_error;
use crate::selector::Selection;
use crate::selector::WindowSelector;
use crate::solve::Type;
use crate::store::TimeSeriesStore;
use crate::store::window_entries;
use crate::window::TimeWindow;
use vstd::prelude::*;

verus! {

/// The numbers that the label of a fit tells: the quantities of the fitted polynomial
/// with the squares of their errors, and the degree of the polynomial.
pub struct FitSummary {
    pub coefficients: Vec<Rational>,
    pub squared_errors: Vec<Rational>,
    pub degree: usize,
}

/// Whether a fit is asked for: the window, the kind and the channel are all chosen.
pub open spec fn fit_wanted(s: Selection) -> bool {
    s.sub_window is Some && s.approximation is Some && s.focused_channel is Some
}

/// The points that the fit that is asked for reads.
pub open spec fn fit_points(history: Map<i64, Seq<i64>>, s: Selection) -> Seq<(i64, i64)> {
    channel_points(
        window_entries(history, s.sub_window->Some_0),
        s.focused_channel->Some_0 as int,
    )
}

/// The degree of the fit that is asked for.
pub open spec fn fit_degree(s: Selection) -> nat {
    s.approximation->Some_0.spec_degree()
}

/// Whether the fit that is asked for can be made.
pub open spec fn fit_exists(history: Map<i64, Seq<i64>>, s: Selection) -> bool {
    &&& fit_wanted(s)
    &&& !insufficient(fit_points(history, s), fit_degree(s))
    &&& !degenerate(fit_points(history, s), fit_degree(s))
}

/// The coefficients of the polynomial of degree `d` fitted to the points, lowest order
/// first.
pub open spec fn fitted_coefficients(points: Seq<(i64, i64)>, d: nat) -> Seq<real> {
    Seq::new(d + 1, |j: int| coefficient(points, d, j as nat))
}

/// The squared errors of the coefficients of the polynomial of degree `d` fitted to the
/// points.
pub open spec fn fitted_squared_errors(points: Seq<(i64, i64)>, d: nat) -> Seq<real> {
    Seq::new(d + 1, |j: int| squared_error(points, d, j as nat))
}

/// The graph of the fitted polynomial over the window of the fit, on a plot that shows
/// the window `visible`. There is none where no fit is asked for or none can be made:
/// where the window holds too few samples, or the values of the channel are all the same.
pub fn fit_overlay_vertices(
    data: &TimeSeriesStore,
    selector: &WindowSelector,
    visible: &TimeWindow,
    config: &DataConfig,
    color: &Color,
) -> (r: Option<Vec<Vertex>>)
    requires
        config.scales_usable(),
        config.y@.len() == data.arity(),
        selector.channels() == data.arity(),
    ensures
        r is Some <==> fit_exists(data@, selector@),
        r is Some <==> fit_wanted(selector@) && !insufficient(
            fit_points(data@, selector@),
            fit_degree(selector@),
        ) && span(fit_points(data@, selector@), true) != 0,
        r is Some ==> r->Some_0@.len() == crate::projector::OVERLAY_POINTS && forall|k: int|
            0 <= k < r->Some_0@.len() ==> (#[trigger] r->Some_0@[k])@ == overlay_point(
                fitted_coefficients(fit_points(data@, selector@), fit_degree(selector@)),
                selector@.sub_window->Some_0,
                k,
                selector@.focused_channel->Some_0 as int,
                visible.end,
                *config,
                color@,
            ),
{
    match selector.fit_request() {
        None => None,
        Some((window, kind, channel)) => match fit(data, &window, &kind, channel) {
            Err(FitError::InsufficientData) => None,
            Err(FitError::DegenerateWindow) => None,
            Ok(fitted) => {
                proof {
                    assert(values_of(fitted.coefficients@) =~= fitted_coefficients(
                        fit_points(data@, selector@),
                        fit_degree(selector@),
                    ));
                }
                Some(
                    generate_polynomial_graph(
                        &fitted.coefficients,
                        &window,
                        channel,
                        visible.end,
                        config,
                        color,
                    ),
                )
            },
        },
    }
}

/// The coefficients `c` in the units of the grid.
pub open spec fn on_grid(c: Seq<real>, ticks: u32, scale: Y) -> Seq<real> {
    Seq::new(c.len(), |j: int| rescaled_coefficient(c, j as nat, ticks, scale))
}

/// The squared errors `s` in the units of the grid.
pub open spec fn errors_on_grid(s: Seq<real>, ticks: u32, scale: Y) -> Seq<real> {
    Seq::new(s.len(), |j: int| rescaled_squared_error(s, j as nat, ticks, scale))
}

/// The coefficients of the fit that is asked for, in the units of the grid.
pub open spec fn summary_coefficients(
    history: Map<i64, Seq<i64>>,
    s: Selection,
    config: DataConfig,
) -> Seq<real> {
    on_grid(
        fitted_coefficients(fit_points(history, s), fit_degree(s)),
        config.grid.time.ticks_per_division,
        config.y@[s.focused_channel->Some_0 as int],
    )
}

/// The squared errors of the fit that is asked for, in the units of the grid.
pub open spec fn summary_squared_errors(
    history: Map<i64, Seq<i64>>,
    s: Selection,
    config: DataConfig,
) -> Seq<real> {
    errors_on_grid(
        fitted_squared_errors(fit_points(history, s), fit_degree(s)),
        config.grid.time.ticks_per_division,
        config.y@[s.focused_channel->Some_0 as int],
    )
}

/// The numbers that the label of the fit tells: the quantities of the fitted polynomial
/// in the units of the grid. There are none where no fit is asked for or none can be
/// made, and none for a fitted line that is level or a fitted parabola that is a line.
pub fn fit_summary(data: &TimeSeriesStore, selector: &WindowSelector, config: &DataConfig) -> (r:
    Option<FitSummary>)
    requires
        config.scales_usable(),
        config.y@.len() == data.arity(),
        selector.channels() == data.arity(),
    ensures
        r is Some <==> fit_exists(data@, selector@) && !(fit_degree(selector@) >= 1
            && summary_coefficients(data@, selector@, *config)[fit_degree(selector@) as int]
            == 0real),
        r is Some ==> {
            let d = fit_degree(selector@);
            let c = summary_coefficients(data@, selector@, *config);
            let s = summary_squared_errors(data@, selector@, *config);
            &&& r->Some_0.degree == d
            &&& r->Some_0.coefficients@.len() == d + 1
            &&& r->Some_0.squared_errors@.len() == d + 1
            &&& forall|j: int|
                0 <= j <= d ==> (#[trigger] r->Some_0.coefficients@[j])@ == transformed_coefficient(
                    c,
                    d,
                    j as nat,
                )
            &&& forall|j: int|
                0 <= j <= d ==> (#[trigger] r->Some_0.squared_errors@[j])@
                    == transformed_squared_error(c, s, d, j as nat)
        },
{
    match selector.fit_request() {
        None => None,
        Some((window, kind, channel)) => match fit(data, &window, &kind, channel) {
            Err(FitError::InsufficientData) => None,
            Err(FitError::DegenerateWindow) => None,
            Ok(fitted) => {
                proof {
                    assert(values_of(fitted.coefficients@) =~= fitted_coefficients(
                        fit_points(data@, selector@),
                        fit_degree(selector@),
                    ));
                    assert(values_of(fitted.squared_errors@) =~= fitted_squared_errors(
                        fit_points(data@, selector@),
                        fit_degree(selector@),
                    ));
                }
                let scaled = to_grid_units(
                    &fitted.coefficients,
                    &fitted.squared_errors,
                    config.grid.time.ticks_per_division,
                    &config.y[channel],
                );
                proof {
                    assert(values_of(scaled.coefficients@) =~= summary_coefficients(
                        data@,
                        selector@,
                        *config,
                    ));
                    assert(values_of(scaled.squared_errors@) =~= summary_squared_errors(
                        data@,
                        selector@,
                        *config,
                    ));
                    assert(scaled.coefficients@[fit_degree(selector@) as int]@
                        == summary_coefficients(data@, selector@, *config)[fit_degree(
                        selector@,
                    ) as int]);
                }
                match transform_coefficients(&scaled.coefficients, &scaled.squared_errors, &kind) {
                    None => None,
                    Some(told) => Some(
                        FitSummary {
                            coefficients: told.coefficients,
                            squared_errors: told.squared_errors,
                            degree: kind.degree(),
                        },
                    ),
                }
            },
        },
    }
}

} // verus!
