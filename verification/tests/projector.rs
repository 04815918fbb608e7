use rt_plot::config::Color as WrittenColor;
use rt_plot::config::ConfigError;
use rt_plot::config::Data;
use rt_plot::config::DataConfig;
use rt_plot::config::Grid;
use rt_plot::config::Time;
use rt_plot::config::X;
use rt_plot::config::Y;
use rt_plot::layout::get_dimensions;
use rt_plot::projector::evaluate;
use rt_plot::projector::generate_approximation_window;
use rt_plot::projector::generate_bound_rectangles;
use rt_plot::projector::generate_graphs;
use rt_plot::projector::generate_grid;
use rt_plot::projector::generate_polynomial_graph;
use rt_plot::projector::normalize_datapoint;
use rt_plot::projector::project_time;
use rt_plot::projector::project_value;
use rt_plot::projector::transform_range;
use rt_plot::projector::Color;
use rt_plot::projector::DataPoint;
use rt_plot::projector::GridScale;
use rt_plot::projector::Vertex;
use rt_plot::rational::Rational;
use rt_plot::store::TimeSeriesStore;
use rt_plot::window::TimeWindow;

fn q(num: i64, den: i64) -> Rational {
    Rational::from_ratio(num, den)
}

fn is(value: &Rational, num: i64, den: i64) -> bool {
    value.equals(&q(num, den))
}

fn config(channels: Vec<Y>) -> DataConfig {
    DataConfig {
        grid: Grid {
            label: String::from("plot"),
            time: Time {
                divisions: 10,
                ticks_per_division: 100,
                ticks_per_second: 1000,
                label: String::from("t"),
            },
            data: Data { divisions: 8, zero_shift: q(0, 1), label: String::from("y") },
        },
        y: channels,
    }
}

fn plain() -> Y {
    Y { raw_offset: 0, raw_per_division: 10 }
}

fn color(r: i64, g: i64, b: i64) -> Color {
    Color { r: q(r, 255), g: q(g, 255), b: q(b, 255), a: q(1, 1) }
}

fn at(v: &Vertex, x: (i64, i64), y: (i64, i64)) -> bool {
    is(&v.x, x.0, x.1) && is(&v.y, y.0, y.1)
}

#[test]
fn range_is_carried_along_a_straight_line() {
    let r = transform_range(&q(5, 1), &q(0, 1), &q(10, 1), &q(-1, 1), &q(1, 1));
    assert!(is(&r, 0, 1));
    let r = transform_range(&q(0, 1), &q(0, 1), &q(10, 1), &q(-1, 1), &q(1, 1));
    assert!(is(&r, -1, 1));
    let r = transform_range(&q(1, 3), &q(0, 1), &q(1, 1), &q(10, 1), &q(40, 1));
    assert!(is(&r, 20, 1));
    let r = transform_range(&q(12, 1), &q(10, 1), &q(0, 1), &q(0, 1), &q(5, 1));
    assert!(is(&r, -1, 1));
}

#[test]
fn time_runs_from_the_left_edge_to_the_right() {
    let c = config(vec![plain()]);
    assert!(is(&project_time(&q(5000, 1), 5000, &c), 1, 1));
    assert!(is(&project_time(&q(4000, 1), 5000, &c), -1, 1));
    assert!(is(&project_time(&q(4500, 1), 5000, &c), 0, 1));
    assert!(is(&project_time(&q(4750, 1), 5000, &c), 1, 2));
    assert!(is(&project_time(&q(9001, 2), 5000, &c), 1, 1000));
}

#[test]
fn value_is_scaled_and_shifted() {
    let c = config(vec![plain(), Y { raw_offset: 512, raw_per_division: 128 }]);
    assert!(is(&project_value(&q(40, 1), 0, &c), 1, 1));
    assert!(is(&project_value(&q(-20, 1), 0, &c), -1, 2));
    assert!(is(&project_value(&q(512, 1), 1, &c), 0, 1));
    assert!(is(&project_value(&q(768, 1), 1, &c), 1, 2));
    let mut shifted = config(vec![Y { raw_offset: 512, raw_per_division: 128 }]);
    shifted.grid.data.zero_shift = q(-2, 1);
    assert!(is(&project_value(&q(768, 1), 0, &shifted), 0, 1));
    assert!(is(&project_value(&q(512, 1), 0, &shifted), -1, 2));
}

#[test]
fn written_colour_becomes_parts_of_one() {
    let written = WrittenColor { rgb: [255, 0, 51], opacity: None };
    let c = Color::from(&written);
    assert!(is(&c.r, 1, 1));
    assert!(is(&c.g, 0, 1));
    assert!(is(&c.b, 1, 5));
    assert!(is(&c.a, 1, 1));
    let written = WrittenColor { rgb: [0, 128, 255], opacity: Some(q(3, 10)) };
    let c = Color::from(&written);
    assert!(is(&c.g, 128, 255));
    assert!(is(&c.a, 3, 10));
}

#[test]
fn shade_keeps_a_fifth_of_the_opacity() {
    let c = Color { r: q(1, 2), g: q(1, 3), b: q(1, 4), a: q(4, 5) };
    let bright = c.shade(true);
    assert!(is(&bright.a, 4, 5));
    let dim = c.shade(false);
    assert!(is(&dim.a, 4, 25));
    assert!(is(&dim.r, 1, 2));
    assert!(is(&dim.g, 1, 3));
    assert!(is(&dim.b, 1, 4));
}

fn two_channel_store() -> TimeSeriesStore {
    let mut store = TimeSeriesStore::new(2);
    for (time, a, b) in [(4000, 0, 40), (4500, 20, 20), (5000, 40, 0), (5500, 1, 1)] {
        store.insert(time, vec![a, b]).unwrap();
    }
    store
}

#[test]
fn graphs_hold_one_point_for_each_sample_in_sight() {
    let store = two_channel_store();
    let c = config(vec![plain(), plain()]);
    let colors = vec![color(255, 0, 0), color(0, 255, 0)];
    let visible = TimeWindow { start: 4000, end: 5001 };
    let graphs = generate_graphs(&store, &visible, &c, &colors, &None, &None);
    assert_eq!(graphs.len(), 2);
    assert_eq!(graphs[0].len(), 3);
    assert_eq!(graphs[1].len(), 3);
    assert!(at(&graphs[0][0], (-501, 500), (0, 1)));
    assert!(at(&graphs[0][1], (-1, 500), (1, 2)));
    assert!(at(&graphs[0][2], (499, 500), (1, 1)));
    assert!(at(&graphs[1][0], (-501, 500), (1, 1)));
    assert!(at(&graphs[1][2], (499, 500), (0, 1)));
    for v in &graphs[0] {
        assert!(is(&v.color.r, 1, 1));
        assert!(is(&v.color.a, 1, 1));
    }
    for v in &graphs[1] {
        assert!(is(&v.color.g, 1, 1));
        assert!(is(&v.color.a, 1, 1));
    }
}

#[test]
fn points_out_of_focus_are_dimmed_and_kept() {
    let store = two_channel_store();
    let c = config(vec![plain(), plain()]);
    let colors = vec![color(255, 0, 0), color(0, 255, 0)];
    let visible = TimeWindow { start: 4000, end: 6000 };
    let sub = Some(TimeWindow { start: 4500, end: 5500 });
    let graphs = generate_graphs(&store, &visible, &c, &colors, &sub, &Some(1));
    assert_eq!(graphs[0].len(), 4);
    assert_eq!(graphs[1].len(), 4);
    for v in &graphs[0] {
        assert!(is(&v.color.a, 1, 5));
    }
    let alphas: Vec<bool> = graphs[1].iter().map(|v| is(&v.color.a, 1, 1)).collect();
    assert_eq!(alphas, vec![false, true, true, false]);
    assert!(is(&graphs[1][0].color.a, 1, 5));
    let graphs = generate_graphs(&store, &visible, &c, &colors, &sub, &None);
    let alphas: Vec<bool> = graphs[0].iter().map(|v| is(&v.color.a, 1, 1)).collect();
    assert_eq!(alphas, vec![false, true, true, false]);
    let graphs = generate_graphs(&store, &visible, &c, &colors, &None, &Some(0));
    assert!(graphs[0].iter().all(|v| is(&v.color.a, 1, 1)));
    assert!(graphs[1].iter().all(|v| is(&v.color.a, 1, 5)));
}

#[test]
fn polynomial_is_evaluated_from_the_lowest_order() {
    let c = vec![q(1, 1), q(2, 1), q(3, 1)];
    assert!(is(&evaluate(&c, &q(0, 1)), 1, 1));
    assert!(is(&evaluate(&c, &q(2, 1)), 17, 1));
    assert!(is(&evaluate(&c, &q(-1, 2)), 3, 4));
    assert!(is(&evaluate(&Vec::new(), &q(5, 1)), 0, 1));
}

#[test]
fn overlay_spans_the_window_of_the_fit() {
    let c = config(vec![plain()]);
    let line = vec![q(1, 1), q(1, 50)];
    let window = TimeWindow { start: 4000, end: 5000 };
    let graph = generate_polynomial_graph(&line, &window, 0, 5000, &c, &color(0, 0, 255));
    assert_eq!(graph.len(), 2000);
    assert!(at(&graph[0], (-1, 1), (81, 40)));
    assert!(at(&graph[1], (-999, 1000), (8101, 4000)));
    assert!(at(&graph[1000], (0, 1), (91, 40)));
    assert!(at(&graph[1999], (999, 1000), (10099, 4000)));
    assert!(is(&graph[7].color.b, 1, 1));
}

#[test]
fn overlay_stays_inside_a_narrow_window() {
    let c = config(vec![plain()]);
    let level = vec![q(20, 1)];
    let window = TimeWindow { start: 4500, end: 4600 };
    let graph = generate_polynomial_graph(&level, &window, 0, 5000, &c, &color(0, 0, 255));
    assert_eq!(graph.len(), 2000);
    assert!(at(&graph[0], (0, 1), (1, 2)));
    assert!(at(&graph[1999], (1999, 10000), (1, 2)));
    for v in &graph {
        assert!(!v.x.is_negative());
        assert!(v.x.less_than(&q(1, 5)));
    }
}

#[test]
fn grid_has_a_line_at_every_division() {
    let grid = generate_grid(2, 2, &color(9, 9, 9));
    assert_eq!(grid.len(), 12);
    assert!(at(&grid[0], (-9999, 10000), (-1, 1)));
    assert!(at(&grid[1], (-9999, 10000), (1, 1)));
    assert!(at(&grid[2], (0, 1), (-1, 1)));
    assert!(at(&grid[3], (0, 1), (1, 1)));
    assert!(at(&grid[4], (1, 1), (-1, 1)));
    assert!(at(&grid[5], (1, 1), (1, 1)));
    assert!(at(&grid[6], (-1, 1), (-1, 1)));
    assert!(at(&grid[7], (1, 1), (-1, 1)));
    assert!(at(&grid[8], (-1, 1), (0, 1)));
    assert!(at(&grid[9], (1, 1), (0, 1)));
    assert!(at(&grid[10], (-1, 1), (9999, 10000)));
    assert!(at(&grid[11], (1, 1), (9999, 10000)));
    let grid = generate_grid(10, 8, &color(9, 9, 9));
    assert_eq!(grid.len(), 40);
    assert!(at(&grid[6], (-2, 5), (-1, 1)));
    assert!(at(&grid[24], (-1, 1), (-3, 4)));
}

#[test]
fn veils_lie_left_and_right_of_the_bounds() {
    let bounds = (q(-1, 2), q(1, 4));
    let (left, right) = generate_bound_rectangles(&bounds, &q(3, 10));
    assert_eq!(left.len(), 4);
    assert_eq!(right.len(), 4);
    assert!(at(&left[0], (-1, 1), (1, 1)));
    assert!(at(&left[1], (-1, 2), (1, 1)));
    assert!(at(&left[2], (-1, 2), (-1, 1)));
    assert!(at(&left[3], (-1, 1), (-1, 1)));
    assert!(at(&right[0], (1, 4), (1, 1)));
    assert!(at(&right[1], (1, 1), (1, 1)));
    assert!(at(&right[2], (1, 1), (-1, 1)));
    assert!(at(&right[3], (1, 4), (-1, 1)));
    for v in left.iter().chain(right.iter()) {
        assert!(v.color.r.is_zero() && v.color.g.is_zero() && v.color.b.is_zero());
        assert!(is(&v.color.a, 3, 10));
    }
}

#[test]
fn window_of_the_fit_lies_between_the_bounds() {
    let bounds = (q(-1, 2), q(1, 4));
    let window = generate_approximation_window(&bounds, &q(1, 2));
    assert_eq!(window.len(), 4);
    assert!(at(&window[0], (-1, 2), (1, 1)));
    assert!(at(&window[1], (-1, 2), (-1, 1)));
    assert!(at(&window[2], (1, 4), (-1, 1)));
    assert!(at(&window[3], (1, 4), (1, 1)));
    assert!(is(&window[2].color.a, 1, 2));
}

#[test]
fn datapoint_is_drawn_from_the_right_edge_back() {
    let scale = GridScale {
        x: X { divisions: 10, milliseconds_per_division: 100 },
        y_divisions: 8,
        units_per_division: 5,
    };
    let point = DataPoint { x: 1500, y: vec![10, -20, 0] };
    let (x, y) = normalize_datapoint(&point, &scale, 2000);
    assert!(is(&x, 0, 1));
    assert_eq!(y.len(), 3);
    assert!(is(&y[0], 1, 2));
    assert!(is(&y[1], -1, 1));
    assert!(is(&y[2], 0, 1));
    let (x, _) = normalize_datapoint(&point, &scale, 1500);
    assert!(is(&x, 1, 1));
    let (x, _) = normalize_datapoint(&point, &scale, 1000);
    assert!(is(&x, 2, 1));
}

#[test]
fn grid_is_made_square_on_a_wide_screen() {
    assert_eq!(get_dimensions(1280, 720, 100, 10, 8), (260, 100, 759, 520));
}

#[test]
fn grid_is_made_square_on_a_high_screen() {
    assert_eq!(get_dimensions(720, 1280, 50, 10, 8), (50, 374, 620, 531));
}

#[test]
fn grid_fills_a_screen_of_its_own_shape() {
    assert_eq!(get_dimensions(800, 800, 0, 4, 4), (0, 0, 800, 800));
    assert_eq!(get_dimensions(1000, 800, 100, 10, 8), (100, 100, 800, 600));
    assert_eq!(get_dimensions(200, 200, 100, 3, 7), (100, 100, 0, 0));
}

#[test]
fn configuration_with_usable_scales_is_valid() {
    let c = config(vec![plain(), plain()]);
    assert_eq!(c.validate(2), Ok(()));
    assert_eq!(c.validate(5), Ok(()));
    assert_eq!(config(Vec::new()).validate(0), Ok(()));
}

#[test]
fn configuration_with_too_few_colours_does_not_match() {
    let c = config(vec![plain(), plain()]);
    assert_eq!(c.validate(1), Err(ConfigError::ConfigMismatch));
}

#[test]
fn configuration_with_an_empty_scale_is_refused() {
    let mut c = config(vec![plain()]);
    c.grid.time.divisions = 0;
    assert_eq!(c.validate(1), Err(ConfigError::EmptyScale));
    let mut c = config(vec![plain()]);
    c.grid.time.ticks_per_division = 0;
    assert_eq!(c.validate(1), Err(ConfigError::EmptyScale));
    let mut c = config(vec![plain()]);
    c.grid.data.divisions = 0;
    assert_eq!(c.validate(1), Err(ConfigError::EmptyScale));
    let c = config(vec![plain(), Y { raw_offset: 3, raw_per_division: 0 }]);
    assert_eq!(c.validate(2), Err(ConfigError::EmptyScale));
    assert_eq!(c.validate(0), Err(ConfigError::EmptyScale));
}
