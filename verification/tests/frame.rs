use rt_plot::config::Data;
use rt_plot::config::DataConfig;
use rt_plot::config::Grid;
use rt_plot::config::Time;
use rt_plot::config::Y;
use rt_plot::basis::to_grid_units;
use rt_plot::frame::fit_overlay_vertices;
use rt_plot::frame::fit_summary;
use rt_plot::natural::Natural;
use rt_plot::projector::visible_graph_vertices;
use rt_plot::projector::Color;
use rt_plot::rational::Rational;
use rt_plot::root::standard_error;
use rt_plot::root::whole_root;
use rt_plot::selector::Event;
use rt_plot::selector::WindowSelector;
use rt_plot::store::TimeSeriesStore;
use rt_plot::text::label_anchor;
use rt_plot::text::texel_position;
use rt_plot::text::text_quad;
use rt_plot::text::text_rectangle;
use rt_plot::text::Label;
use rt_plot::text::Orientation;
use rt_plot::window::TimeWindow;

fn q(num: i64, den: i64) -> Rational {
    Rational::from_ratio(num, den)
}

fn is(value: &Rational, num: i64, den: i64) -> bool {
    value.equals(&q(num, den))
}

fn config() -> DataConfig {
    DataConfig {
        grid: Grid {
            label: String::from("plot"),
            time: Time {
                divisions: 10,
                ticks_per_division: 100,
                ticks_per_second: 1000,
                label: String::from("t"),
            },
            data: Data { divisions: 8, zero_shift: q(0, 1), label: String::from("y") },
        },
        y: vec![Y { raw_offset: 0, raw_per_division: 10 }],
    }
}

fn white() -> Color {
    Color { r: q(1, 1), g: q(1, 1), b: q(1, 1), a: q(1, 1) }
}

fn store() -> TimeSeriesStore {
    let mut store = TimeSeriesStore::new(1);
    for (time, value) in [(0, 1), (100, 2), (200, 2), (300, 5), (5000, 77)] {
        store.insert(time, vec![value]).unwrap();
    }
    store
}

fn selector_with_linear_fit() -> WindowSelector {
    let mut selector = WindowSelector::new(1, 1);
    selector.apply(Event::ToggleFreeze, TimeWindow { start: 0, end: 1000 });
    selector.apply(Event::Focus(0), TimeWindow { start: 0, end: 1000 });
    selector.apply(Event::CycleApproximation, TimeWindow { start: 0, end: 1000 });
    selector.apply(Event::CycleApproximation, TimeWindow { start: 0, end: 1000 });
    selector
}

#[test]
fn whole_root_is_the_root_rounded_down() {
    let one = Natural::from_u64(1);
    for (n, root) in [(0u64, 0u64), (1, 1), (2, 1), (3, 1), (4, 2), (99, 9), (100, 10), (u64::MAX, 4294967295)] {
        assert_eq!(whole_root(&Natural::from_u64(n), &one).order(&Natural::from_u64(root)), 0);
    }
    let d = Natural::from_u64(7);
    assert_eq!(whole_root(&Natural::from_u64(700), &d).order(&Natural::from_u64(10)), 0);
    assert_eq!(whole_root(&Natural::from_u64(699), &d).order(&Natural::from_u64(9)), 0);
    let big = Natural::from_u64(u64::MAX).mul(&Natural::from_u64(u64::MAX));
    assert_eq!(whole_root(&big, &one).order(&Natural::from_u64(u64::MAX)), 0);
}

#[test]
fn standard_error_is_the_root_to_the_digits_asked_for() {
    assert!(is(&standard_error(&q(2, 1), 3).unwrap(), 1414, 1000));
    assert!(is(&standard_error(&q(2, 1), 0).unwrap(), 1, 1));
    assert!(is(&standard_error(&q(63, 100), 4).unwrap(), 7937, 10000));
    assert!(is(&standard_error(&q(1, 4), 2).unwrap(), 1, 2));
    assert!(is(&standard_error(&q(0, 1), 5).unwrap(), 0, 1));
    assert!(is(&standard_error(&q(9, 50), 6).unwrap(), 424264, 1000000));
    assert!(standard_error(&q(-1, 4), 2).is_none());
}

#[test]
fn summary_tells_a_line_by_crossing_and_slope() {
    let store = store();
    let selector = selector_with_linear_fit();
    let told = fit_summary(&store, &selector, &config()).unwrap();
    assert_eq!(told.degree, 1);
    assert_eq!(told.coefficients.len(), 2);
    assert!(is(&told.coefficients[0], -7, 12));
    assert!(is(&told.coefficients[1], 3, 25));
    assert!(is(&told.squared_errors[0], 553, 1152));
    assert!(is(&told.squared_errors[1], 9, 5000));
}

#[test]
fn summary_waits_for_window_kind_and_channel() {
    let store = store();
    let mut selector = WindowSelector::new(1, 1);
    assert!(fit_summary(&store, &selector, &config()).is_none());
    selector.apply(Event::ToggleFreeze, TimeWindow { start: 0, end: 1000 });
    selector.apply(Event::CycleApproximation, TimeWindow { start: 0, end: 1000 });
    assert!(fit_summary(&store, &selector, &config()).is_none());
    selector.apply(Event::Focus(0), TimeWindow { start: 0, end: 1000 });
    assert!(fit_summary(&store, &selector, &config()).is_some());
}

#[test]
fn summary_is_left_out_where_the_fit_fails() {
    let store = store();
    let mut selector = WindowSelector::new(1, 1);
    selector.apply(Event::ToggleFreeze, TimeWindow { start: 0, end: 150 });
    selector.apply(Event::Focus(0), TimeWindow { start: 0, end: 150 });
    selector.apply(Event::CycleApproximation, TimeWindow { start: 0, end: 150 });
    assert!(fit_summary(&store, &selector, &config()).is_none());
    assert!(fit_overlay_vertices(&store, &selector, &TimeWindow { start: 0, end: 150 }, &config(), &white()).is_none());
}

#[test]
fn overlay_is_drawn_over_the_window_of_the_fit() {
    let store = store();
    let selector = selector_with_linear_fit();
    let visible = TimeWindow { start: 0, end: 1000 };
    let overlay = fit_overlay_vertices(&store, &selector, &visible, &config(), &white()).unwrap();
    assert_eq!(overlay.len(), 2000);
    assert!(is(&overlay[0].x, -1, 1));
    assert!(is(&overlay[0].y, 7, 400));
    assert!(is(&overlay[1000].x, 0, 1));
    assert!(is(&overlay[1000].y, 67, 400));
}

#[test]
fn graph_of_one_channel_holds_the_samples_in_sight() {
    let store = store();
    let visible = TimeWindow { start: 0, end: 1000 };
    let graph = visible_graph_vertices(&store, &visible, 0, &config(), &white(), &None, &None);
    assert_eq!(graph.len(), 4);
    assert!(is(&graph[0].x, -1, 1));
    assert!(is(&graph[3].x, -2, 5));
    assert!(is(&graph[3].y, 1, 8));
    let sub = Some(TimeWindow { start: 100, end: 300 });
    let graph = visible_graph_vertices(&store, &visible, 0, &config(), &white(), &sub, &Some(0));
    let bright: Vec<bool> = graph.iter().map(|v| is(&v.color.a, 1, 1)).collect();
    assert_eq!(bright, vec![false, true, true, false]);
}

#[test]
fn label_takes_its_letters_and_the_padding() {
    let (w, h) = text_rectangle(160, 40, 1000, 500, Orientation::Horizontal);
    assert!(is(&w, 1, 5));
    assert!(is(&h, 4, 25));
    let (w, h) = text_rectangle(160, 40, 1000, 500, Orientation::Vertical);
    assert!(is(&w, 2, 25));
    assert!(is(&h, 2, 5));
}

#[test]
fn label_is_drawn_on_two_triangles() {
    let quad = text_quad(&q(1, 2), &q(0, 1), &q(1, 5), &q(1, 10));
    assert_eq!(quad.len(), 6);
    let corners: Vec<(bool, bool)> = quad
        .iter()
        .map(|v| (is(&v.x, 3, 5), is(&v.y, 1, 20)))
        .collect();
    assert_eq!(
        corners,
        vec![(false, false), (false, true), (true, true), (true, true), (true, false), (false, false)]
    );
    assert!(is(&quad[0].x, 2, 5));
    assert!(is(&quad[0].y, -1, 20));
    assert!(is(&quad[0].tx, 0, 1) && is(&quad[0].ty, 0, 1));
    assert!(is(&quad[1].tx, 0, 1) && is(&quad[1].ty, 1, 1));
    assert!(is(&quad[2].tx, 1, 1) && is(&quad[2].ty, 1, 1));
    assert!(is(&quad[4].tx, 1, 1) && is(&quad[4].ty, 0, 1));
}

#[test]
fn labels_stand_in_the_margins() {
    let zero_shift = q(2, 1);
    let at = |label| label_anchor(label, 1280, 720, 759, 520, &zero_shift, 8);
    let (x, y) = at(Label::Title);
    assert!(is(&x, 0, 1));
    assert!(is(&y, 31, 36));
    let (x, y) = at(Label::TimeAxis);
    assert!(is(&x, 0, 1));
    assert!(is(&y, -31, 36));
    let (x, y) = at(Label::DataAxis);
    assert!(is(&x, -2039, 2560));
    assert!(is(&y, 0, 1));
    let (x, y) = at(Label::Zero);
    assert!(is(&x, 2039, 2560));
    assert!(is(&y, 13, 36));
}

#[test]
fn letters_are_put_in_upside_down_when_written_across() {
    assert_eq!(texel_position(3, 4, 20, 25, 30, Orientation::Vertical), Some((23, 29)));
    assert_eq!(texel_position(3, 4, 20, 25, 30, Orientation::Horizontal), Some((23, 41)));
    assert_eq!(texel_position(0, 0, -1, 5, 30, Orientation::Vertical), None);
    assert_eq!(texel_position(0, 0, 5, -1, 30, Orientation::Vertical), None);
    assert_eq!(texel_position(0, 80, 5, 0, 30, Orientation::Horizontal), None);
    assert_eq!(texel_position(0, 70, 5, 0, 30, Orientation::Horizontal), Some((5, 0)));
}

#[test]
fn fit_is_brought_to_the_units_of_the_grid() {
    let coefficients = vec![q(7, 10), q(3, 250), q(1, 1000)];
    let squared_errors = vec![q(63, 100), q(9, 500000), q(1, 1)];
    let scale = Y { raw_offset: 2, raw_per_division: 10 };
    let on_grid = to_grid_units(&coefficients, &squared_errors, 100, &scale);
    assert_eq!(on_grid.coefficients.len(), 3);
    assert!(is(&on_grid.coefficients[0], -13, 100));
    assert!(is(&on_grid.coefficients[1], 3, 25));
    assert!(is(&on_grid.coefficients[2], 1, 1));
    assert!(is(&on_grid.squared_errors[0], 63, 10000));
    assert!(is(&on_grid.squared_errors[1], 9, 5000));
    assert!(is(&on_grid.squared_errors[2], 1000000, 1));
}

#[test]
fn polynomial_on_the_grid_gives_the_same_values() {
    let coefficients = vec![q(7, 10), q(3, 250), q(-1, 1000)];
    let squared_errors = vec![q(0, 1), q(0, 1), q(0, 1)];
    let scale = Y { raw_offset: 512, raw_per_division: -128 };
    let on_grid = to_grid_units(&coefficients, &squared_errors, 100, &scale).coefficients;
    for t in [0i64, 1, 50, 100, 12345, -700] {
        let raw = rt_plot::projector::evaluate(&coefficients, &q(t, 1));
        let told = rt_plot::projector::evaluate(&on_grid, &q(t, 100));
        let expected = raw.sub(&q(512, 1)).div(&q(-128, 1));
        assert!(told.equals(&expected));
    }
}
