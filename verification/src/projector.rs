//! From samples and fitted polynomials to points on the screen. The screen runs from
//! -1 to 1 in both directions.

use crate::basis::values_of;
use crate::config::DataConfig;
use crate::config::X;
use crate::integer::Integer;
use crate::rational::Rational;
use crate::rational::quotient;
use crate::store::TimeSeriesStore;
use crate::store::sample_views;
use crate::store::window_entries;
use crate::window::TimeWindow;
use vstd::prelude::*;

verus! {

/// A colour as real numbers: red, green, blue and opacity.
pub struct Shade {
    pub r: real,
    pub g: real,
    pub b: real,
    pub a: real,
}

/// A colour: red, green, blue and opacity, each from zero to one.
#[derive(Debug)]
pub struct Color {
    pub r: Rational,
    pub g: Rational,
    pub b: Rational,
    pub a: Rational,
}

impl View for Color {
    type V = Shade;

    open spec fn view(&self) -> Shade {
        Shade { r: self.r@, g: self.g@, b: self.b@, a: self.a@ }
    }
}

/// A point on the screen as real numbers.
pub struct Point {
    pub x: real,
    pub y: real,
    pub color: Shade,
}

/// A point on the screen with its colour.
#[derive(Debug)]
pub struct Vertex {
    pub x: Rational,
    pub y: Rational,
    pub color: Color,
}

impl View for Vertex {
    type V = Point;

    open spec fn view(&self) -> Point {
        Point { x: self.x@, y: self.y@, color: self.color@ }
    }
}

/// The points that a list of vertices stands for.
pub open spec fn points_of(vertices: Seq<Vertex>) -> Seq<Point> {
    Seq::new(vertices.len(), |i: int| vertices[i]@)
}

/// The part of its opacity that a colour keeps where it is out of focus.
pub open spec fn dim_factor() -> real {
    quotient(1, 5)
}

/// The colour `c`, with less opacity where it is not in focus.
pub open spec fn shaded(c: Shade, in_focus: bool) -> Shade {
    if in_focus {
        c
    } else {
        Shade { a: c.a * dim_factor(), ..c }
    }
}

/// The colour that stands for the written colour `rgb` with the given opacity.
pub open spec fn shade_of(rgb: Seq<u8>, opacity: Option<real>) -> Shade {
    Shade {
        r: quotient(rgb[0] as int, 255),
        g: quotient(rgb[1] as int, 255),
        b: quotient(rgb[2] as int, 255),
        a: match opacity {
            Some(a) => a,
            None => 1real,
        },
    }
}

impl Color {
    /// A second copy of the colour.
    pub fn duplicate(&self) -> (r: Color)
        ensures
            r@ == self@,
    {
        Color {
            r: self.r.duplicate(),
            g: self.g.duplicate(),
            b: self.b.duplicate(),
            a: self.a.duplicate(),
        }
    }

    /// The colour, with less opacity where it is not in focus.
    pub fn shade(&self, in_focus: bool) -> (r: Color)
        ensures
            r@ == shaded(self@, in_focus),
    {
        if in_focus {
            self.duplicate()
        } else {
            Color {
                r: self.r.duplicate(),
                g: self.g.duplicate(),
                b: self.b.duplicate(),
                a: self.a.mul(&Rational::from_ratio(1, 5)),
            }
        }
    }

    /// The colour that a written colour stands for: each of red, green and blue over
    /// 255, and full opacity where none is written.
    pub fn from(color: &crate::config::Color) -> (r: Color)
        ensures
            r@ == shade_of(
                color.rgb@,
                match color.opacity {
                    Some(a) => Some(a@),
                    None => None,
                },
            ),
    {
        Color {
            r: Rational::from_ratio(color.rgb[0] as i64, 255),
            g: Rational::from_ratio(color.rgb[1] as i64, 255),
            b: Rational::from_ratio(color.rgb[2] as i64, 255),
            a: match &color.opacity {
                Some(a) => a.duplicate(),
                None => Rational::from_i64(1),
            },
        }
    }
}

/// The number `value`, carried from the range between `from_min` and `from_max` to the
/// range between `to_min` and `to_max` by the straight line through both ends.
pub open spec fn ranged(value: real, from_min: real, from_max: real, to_min: real, to_max: real) -> real {
    (value - from_min) * (to_max - to_min) / (from_max - from_min) + to_min
}

/// Carries `value` from one range to another. The range that it is carried from spans
/// more than nothing.
pub fn transform_range(
    value: &Rational,
    from_min: &Rational,
    from_max: &Rational,
    to_min: &Rational,
    to_max: &Rational,
) -> (r: Rational)
    requires
        from_max@ != from_min@,
    ensures
        r@ == ranged(value@, from_min@, from_max@, to_min@, to_max@),
{
    value.sub(from_min).mul(&to_max.sub(to_min)).div(&from_max.sub(from_min)).add(to_min)
}

/// Where on the screen the time `t` is drawn, on a plot that ends at the time `end`,
/// is `divisions` divisions wide, and has `ticks` ticks of time in one division.
pub open spec fn screen_x(t: real, end: i64, divisions: u32, ticks: u32) -> real {
    ((t - end as real) / (ticks as real) + (divisions as real) / 2real) * (2real / (
    divisions as real))
}

/// Where on the screen the raw value `v` is drawn, on a plot that is `divisions`
/// divisions high and draws zero `zero_shift` divisions above its middle. `offset` is the
/// raw value that stands for zero, `per_division` the raw units in one division.
pub open spec fn screen_y(
    v: real,
    offset: i64,
    per_division: i64,
    zero_shift: real,
    divisions: u32,
) -> real {
    ((v - offset as real) / (per_division as real) + zero_shift) * (2real / (divisions as real))
}

/// The place of the time `t` on the screen.
pub fn project_time(t: &Rational, end: i64, config: &DataConfig) -> (x: Rational)
    requires
        config.scales_usable(),
    ensures
        x@ == screen_x(t@, end, config.grid.time.divisions, config.grid.time.ticks_per_division),
{
    let divisions = Rational::from_i64(config.grid.time.divisions as i64);
    let ticks = Rational::from_i64(config.grid.time.ticks_per_division as i64);
    let two = Rational::from_i64(2);
    t.sub(&Rational::from_i64(end)).div(&ticks).add(&divisions.div(&two)).mul(&two.div(&divisions))
}

/// The place of the raw value `v` of channel `channel` on the screen.
pub fn project_value(v: &Rational, channel: usize, config: &DataConfig) -> (y: Rational)
    requires
        config.scales_usable(),
        channel < config.y@.len(),
    ensures
        y@ == screen_y(
            v@,
            config.y@[channel as int].raw_offset,
            config.y@[channel as int].raw_per_division,
            config.grid.data.zero_shift@,
            config.grid.data.divisions,
        ),
{
    let divisions = Rational::from_i64(config.grid.data.divisions as i64);
    let offset = Rational::from_i64(config.y[channel].raw_offset);
    let per_division = Rational::from_i64(config.y[channel].raw_per_division);
    let two = Rational::from_i64(2);
    v.sub(&offset).div(&per_division).add(&config.grid.data.zero_shift).mul(&two.div(&divisions))
}

/// Whether a sample is drawn at full opacity: it lies in the window of the fit, where
/// there is one, and on the channel in focus, where there is one.
pub open spec fn in_focus(
    time: i64,
    channel: int,
    subrange: Option<TimeWindow>,
    focused_channel: Option<usize>,
) -> bool {
    &&& subrange is Some ==> subrange->Some_0.contains(time)
    &&& focused_channel is Some ==> focused_channel->Some_0 == channel
}

/// The point that is drawn for one channel of one sample, on a plot that ends at the
/// time `end`.
pub open spec fn graph_point(
    entry: (i64, Seq<i64>),
    channel: int,
    end: i64,
    config: DataConfig,
    color: Shade,
    subrange: Option<TimeWindow>,
    focused_channel: Option<usize>,
) -> Point {
    Point {
        x: screen_x(
            entry.0 as real,
            end,
            config.grid.time.divisions,
            config.grid.time.ticks_per_division,
        ),
        y: screen_y(
            entry.1[channel] as real,
            config.y@[channel].raw_offset,
            config.y@[channel].raw_per_division,
            config.grid.data.zero_shift@,
            config.grid.data.divisions,
        ),
        color: shaded(color, in_focus(entry.0, channel, subrange, focused_channel)),
    }
}

/// The graph of one channel over the visible window `range`: for every sample in the
/// window one point, in order of time. A point out of focus is drawn with less opacity,
/// and is not left out.
pub fn visible_graph_vertices(
    data: &TimeSeriesStore,
    range: &TimeWindow,
    channel: usize,
    config: &DataConfig,
    color: &Color,
    subrange: &Option<TimeWindow>,
    focused_channel: &Option<usize>,
) -> (graph: Vec<Vertex>)
    requires
        config.scales_usable(),
        config.y@.len() == data.arity(),
        channel < config.y@.len(),
    ensures
        graph@.len() == window_entries(data@, *range).len(),
        forall|k: int|
            0 <= k < graph@.len() ==> (#[trigger] graph@[k])@ == graph_point(
                window_entries(data@, *range)[k],
                channel as int,
                range.end,
                *config,
                color@,
                *subrange,
                *focused_channel,
            ),
{
    let samples = data.range_query(range);
    let ghost entries = window_entries(data@, *range);
    let on_channel: bool = match focused_channel {
        Some(j) => *j == channel,
        None => true,
    };
    let mut graph: Vec<Vertex> = Vec::new();
    let mut k: usize = 0;
    while k < samples.len()
        invariant
            k <= samples.len(),
            config.scales_usable(),
            config.y@.len() == data.arity(),
            channel < config.y@.len(),
            entries == sample_views(samples@),
            on_channel == (focused_channel is Some ==> focused_channel->Some_0 == channel),
            forall|m: int|
                0 <= m < samples@.len() ==> (#[trigger] samples@[m]).values@.len() == data.arity(),
            graph@.len() == k,
            forall|m: int|
                0 <= m < k ==> (#[trigger] graph@[m])@ == graph_point(
                    entries[m],
                    channel as int,
                    range.end,
                    *config,
                    color@,
                    *subrange,
                    *focused_channel,
                ),
        decreases samples.len() - k,
    {
        let time: i64 = samples[k].time;
        let value: i64 = samples[k].values[channel];
        let in_window: bool = match subrange {
            Some(w) => w.holds(time),
            None => true,
        };
        let vertex = Vertex {
            x: project_time(&Rational::from_i64(time), range.end, config),
            y: project_value(&Rational::from_i64(value), channel, config),
            color: color.shade(in_window && on_channel),
        };
        proof {
            assert(entries[k as int] == samples@[k as int]@);
        }
        graph.push(vertex);
        k += 1;
    }
    graph
}

/// The graph of each channel over the visible window `range`, each in its colour.
pub fn generate_graphs(
    data: &TimeSeriesStore,
    range: &TimeWindow,
    config: &DataConfig,
    colors: &Vec<Color>,
    subrange: &Option<TimeWindow>,
    focused_channel: &Option<usize>,
) -> (graphs: Vec<Vec<Vertex>>)
    requires
        config.scales_usable(),
        config.y@.len() == data.arity(),
        config.y@.len() <= colors@.len(),
    ensures
        graphs@.len() == config.y@.len(),
        forall|i: int|
            0 <= i < graphs@.len() ==> (#[trigger] graphs@[i])@.len() == window_entries(
                data@,
                *range,
            ).len(),
        forall|i: int, k: int|
            0 <= i < graphs@.len() && 0 <= k < window_entries(data@, *range).len() ==> (
            #[trigger] graphs@[i]@[k])@ == graph_point(
                window_entries(data@, *range)[k],
                i,
                range.end,
                *config,
                colors@[i]@,
                *subrange,
                *focused_channel,
            ),
{
    let channels: usize = config.y.len();
    let mut graphs: Vec<Vec<Vertex>> = Vec::new();
    let mut i: usize = 0;
    while i < channels
        invariant
            i <= channels,
            channels == config.y@.len(),
            config.scales_usable(),
            config.y@.len() == data.arity(),
            config.y@.len() <= colors@.len(),
            graphs@.len() == i,
            forall|c: int|
                0 <= c < i ==> (#[trigger] graphs@[c])@.len() == window_entries(
                    data@,
                    *range,
                ).len(),
            forall|c: int, k: int|
                0 <= c < i && 0 <= k < window_entries(data@, *range).len() ==> (
                #[trigger] graphs@[c]@[k])@ == graph_point(
                    window_entries(data@, *range)[k],
                    c,
                    range.end,
                    *config,
                    colors@[c]@,
                    *subrange,
                    *focused_channel,
                ),
        decreases channels - i,
    {
        let graph = visible_graph_vertices(
            data,
            range,
            i,
            config,
            &colors[i],
            subrange,
            focused_channel,
        );
        graphs.push(graph);
        i += 1;
    }
    graphs
}

/// The value at `x` of the polynomial with the coefficients `c`, lowest order first.
pub open spec fn evaluated(c: Seq<real>, x: real) -> real
    decreases c.len(),
{
    if c.len() == 0 {
        0real
    } else {
        c[0] + x * evaluated(c.drop_first(), x)
    }
}

/// The value of a polynomial at `x`.
pub fn evaluate(coefficients: &Vec<Rational>, x: &Rational) -> (y: Rational)
    ensures
        y@ == evaluated(values_of(coefficients@), x@),
{
    let n: usize = coefficients.len();
    let ghost c = values_of(coefficients@);
    let mut acc = Rational::from_i64(0);
    let mut j: usize = n;
    proof {
        assert(c.subrange(n as int, n as int).len() == 0);
    }
    while j > 0
        invariant
            j <= n,
            n == coefficients@.len(),
            c == values_of(coefficients@),
            acc@ == evaluated(c.subrange(j as int, n as int), x@),
        decreases j,
    {
        j -= 1;
        proof {
            let tail = c.subrange(j as int, n as int);
            assert(tail.drop_first() =~= c.subrange(j + 1, n as int));
            assert(tail[0] == coefficients@[j as int]@);
        }
        acc = coefficients[j].add(&x.mul(&acc));
    }
    proof {
        assert(c.subrange(0, n as int) =~= c);
    }
    acc
}

/// The number of points that the graph of a fitted polynomial is drawn with.
pub const OVERLAY_POINTS: u32 = 2000;

/// The time of point `k` of the graph of a fitted polynomial over the window: the points
/// lie at even distances from the start of the window up to its end.
pub open spec fn overlay_time(window: TimeWindow, k: int) -> real {
    window.start as real + (k as real * (window.end - window.start) as real) / (
    OVERLAY_POINTS as real)
}

/// Point `k` of the graph of the polynomial with the coefficients `c`, fitted to channel
/// `channel` over the window `window`, on a plot that ends at the time `end`.
pub open spec fn overlay_point(
    c: Seq<real>,
    window: TimeWindow,
    k: int,
    channel: int,
    end: i64,
    config: DataConfig,
    color: Shade,
) -> Point {
    Point {
        x: screen_x(
            overlay_time(window, k),
            end,
            config.grid.time.divisions,
            config.grid.time.ticks_per_division,
        ),
        y: screen_y(
            evaluated(c, overlay_time(window, k)),
            config.y@[channel].raw_offset,
            config.y@[channel].raw_per_division,
            config.grid.data.zero_shift@,
            config.grid.data.divisions,
        ),
        color,
    }
}

/// The graph of a fitted polynomial: its value at `OVERLAY_POINTS` times over the window
/// of the fit `range`, carried to the screen as the samples of the channel are. The plot
/// ends at the time `end`.
pub fn generate_polynomial_graph(
    coefficients: &Vec<Rational>,
    range: &TimeWindow,
    channel: usize,
    end: i64,
    config: &DataConfig,
    color: &Color,
) -> (graph: Vec<Vertex>)
    requires
        config.scales_usable(),
        channel < config.y@.len(),
    ensures
        graph@.len() == OVERLAY_POINTS,
        forall|k: int|
            0 <= k < OVERLAY_POINTS ==> (#[trigger] graph@[k])@ == overlay_point(
                values_of(coefficients@),
                *range,
                k,
                channel as int,
                end,
                *config,
                color@,
            ),
{
    let start = Rational::from_i64(range.start);
    let width = Rational::from_integer(
        Integer::from_i64(range.end).sub(&Integer::from_i64(range.start)),
    );
    let count = Rational::from_i64(OVERLAY_POINTS as i64);
    let mut graph: Vec<Vertex> = Vec::new();
    let mut k: u32 = 0;
    while k < OVERLAY_POINTS
        invariant
            k <= OVERLAY_POINTS,
            config.scales_usable(),
            channel < config.y@.len(),
            start@ == range.start as real,
            width@ == (range.end - range.start) as real,
            count@ == OVERLAY_POINTS as real,
            graph@.len() == k,
            forall|m: int|
                0 <= m < k ==> (#[trigger] graph@[m])@ == overlay_point(
                    values_of(coefficients@),
                    *range,
                    m,
                    channel as int,
                    end,
                    *config,
                    color@,
                ),
        decreases OVERLAY_POINTS - k,
    {
        let t = start.add(&Rational::from_i64(k as i64).mul(&width).div(&count));
        let y = evaluate(coefficients, &t);
        let vertex = Vertex {
            x: project_time(&t, end, config),
            y: project_value(&y, channel, config),
            color: color.duplicate(),
        };
        graph.push(vertex);
        k += 1;
    }
    graph
}

/// Where line `i` of a grid of `divisions` divisions lies on the screen.
pub open spec fn grid_line(i: int, divisions: u32) -> real {
    quotient(2, divisions as int) * (i as real) - 1real
}

/// The distance by which the first upright line and the last level line of the grid are
/// moved into the screen, so that they are not cut off at its edge.
pub open spec fn hairline() -> real {
    quotient(1, 10000)
}

/// Point `k` of the grid. The upright lines come first, from the left, each from the
/// bottom to the top of the screen; then the level lines, from below, each from the left
/// to the right.
pub open spec fn grid_point(k: int, time_divisions: u32, data_divisions: u32, color: Shade) -> Point {
    let upright = 2 * (time_divisions + 1);
    if k < upright {
        Point {
            x: grid_line(k / 2, time_divisions) + (if k / 2 == 0 {
                hairline()
            } else {
                0real
            }),
            y: if k % 2 == 0 {
                -1real
            } else {
                1real
            },
            color,
        }
    } else {
        Point {
            x: if (k - upright) % 2 == 0 {
                -1real
            } else {
                1real
            },
            y: grid_line((k - upright) / 2, data_divisions) - (if (k - upright) / 2
                == data_divisions {
                hairline()
            } else {
                0real
            }),
            color,
        }
    }
}

fn grid_position(i: u64, divisions: u32) -> (r: Rational)
    requires
        divisions > 0,
        i <= divisions,
    ensures
        r@ == grid_line(i as int, divisions),
{
    Rational::from_ratio(2, divisions as i64).mul(&Rational::from_i64(i as i64)).sub(
        &Rational::from_i64(1),
    )
}

/// The lines of the grid: one upright line at every division of time and one level line
/// at every division of data, the edges of the screen among them.
pub fn generate_grid(time_divisions: u32, data_divisions: u32, color: &Color) -> (grid: Vec<Vertex>)
    requires
        time_divisions > 0,
        data_divisions > 0,
    ensures
        grid@.len() == 2 * (time_divisions + 1) + 2 * (data_divisions + 1),
        forall|k: int|
            0 <= k < grid@.len() ==> (#[trigger] grid@[k])@ == grid_point(
                k,
                time_divisions,
                data_divisions,
                color@,
            ),
{
    let mut grid: Vec<Vertex> = Vec::new();
    let mut i: u64 = 0;
    while i <= time_divisions as u64
        invariant
            i <= time_divisions + 1,
            time_divisions > 0,
            grid@.len() == 2 * i,
            forall|k: int|
                0 <= k < grid@.len() ==> (#[trigger] grid@[k])@ == grid_point(
                    k,
                    time_divisions,
                    data_divisions,
                    color@,
                ),
        decreases time_divisions + 1 - i,
    {
        let shift = if i == 0 {
            Rational::from_ratio(1, 10000)
        } else {
            Rational::from_i64(0)
        };
        let x = grid_position(i, time_divisions).add(&shift);
        grid.push(Vertex { x: x.duplicate(), y: Rational::from_i64(-1), color: color.duplicate() });
        grid.push(Vertex { x, y: Rational::from_i64(1), color: color.duplicate() });
        i += 1;
    }
    let ghost upright: int = 2 * (time_divisions + 1);
    let mut j: u64 = 0;
    while j <= data_divisions as u64
        invariant
            j <= data_divisions + 1,
            data_divisions > 0,
            upright == 2 * (time_divisions + 1),
            grid@.len() == upright + 2 * j,
            forall|k: int|
                0 <= k < grid@.len() ==> (#[trigger] grid@[k])@ == grid_point(
                    k,
                    time_divisions,
                    data_divisions,
                    color@,
                ),
        decreases data_divisions + 1 - j,
    {
        let shift = if j == data_divisions as u64 {
            Rational::from_ratio(1, 10000)
        } else {
            Rational::from_i64(0)
        };
        let y = grid_position(j, data_divisions).sub(&shift);
        grid.push(Vertex { x: Rational::from_i64(-1), y: y.duplicate(), color: color.duplicate() });
        grid.push(Vertex { x: Rational::from_i64(1), y, color: color.duplicate() });
        j += 1;
    }
    grid
}

/// The colour black with the opacity `alpha`.
pub open spec fn veil(alpha: real) -> Shade {
    Shade { r: 0real, g: 0real, b: 0real, a: alpha }
}

fn corner(x: &Rational, y: i64, alpha: &Rational) -> (v: Vertex)
    ensures
        v@ == (Point { x: x@, y: y as real, color: veil(alpha@) }),
{
    Vertex {
        x: x.duplicate(),
        y: Rational::from_i64(y),
        color: Color {
            r: Rational::from_i64(0),
            g: Rational::from_i64(0),
            b: Rational::from_i64(0),
            a: alpha.duplicate(),
        },
    }
}

/// The four corners of the rectangle over the whole height of the screen from `a` to
/// `b`: the top at `a`, the top at `b`, the bottom at `b`, the bottom at `a`.
pub open spec fn upright_rectangle(a: real, b: real, alpha: real) -> Seq<Point> {
    seq![
        Point { x: a, y: 1real, color: veil(alpha) },
        Point { x: b, y: 1real, color: veil(alpha) },
        Point { x: b, y: -1real, color: veil(alpha) },
        Point { x: a, y: -1real, color: veil(alpha) },
    ]
}

/// The two rectangles that veil the screen left and right of the bounds of a fit: one
/// from the left edge of the screen to the first bound, one from the second bound to the
/// right edge.
pub fn generate_bound_rectangles(bounds: &(Rational, Rational), alpha: &Rational) -> (r: (
    Vec<Vertex>,
    Vec<Vertex>,
))
    ensures
        points_of(r.0@) == upright_rectangle(-1real, bounds.0@, alpha@),
        points_of(r.1@) == upright_rectangle(bounds.1@, 1real, alpha@),
{
    let low = Rational::from_i64(-1);
    let high = Rational::from_i64(1);
    let mut left: Vec<Vertex> = Vec::new();
    left.push(corner(&low, 1, alpha));
    left.push(corner(&bounds.0, 1, alpha));
    left.push(corner(&bounds.0, -1, alpha));
    left.push(corner(&low, -1, alpha));
    let mut right: Vec<Vertex> = Vec::new();
    right.push(corner(&bounds.1, 1, alpha));
    right.push(corner(&high, 1, alpha));
    right.push(corner(&high, -1, alpha));
    right.push(corner(&bounds.1, -1, alpha));
    proof {
        assert(points_of(left@) =~= upright_rectangle(-1real, bounds.0@, alpha@));
        assert(points_of(right@) =~= upright_rectangle(bounds.1@, 1real, alpha@));
    }
    (left, right)
}

/// The rectangle over the whole height of the screen between the bounds of a fit, from
/// the top of the first bound round over the bottom.
pub fn generate_approximation_window(bounds: &(Rational, Rational), alpha: &Rational) -> (r: Vec<
    Vertex,
>)
    ensures
        points_of(r@) == seq![
            Point { x: bounds.0@, y: 1real, color: veil(alpha@) },
            Point { x: bounds.0@, y: -1real, color: veil(alpha@) },
            Point { x: bounds.1@, y: -1real, color: veil(alpha@) },
            Point { x: bounds.1@, y: 1real, color: veil(alpha@) },
        ],
{
    let mut window: Vec<Vertex> = Vec::new();
    window.push(corner(&bounds.0, 1, alpha));
    window.push(corner(&bounds.0, -1, alpha));
    window.push(corner(&bounds.1, -1, alpha));
    window.push(corner(&bounds.1, 1, alpha));
    proof {
        assert(points_of(window@) =~= seq![
            Point { x: bounds.0@, y: 1real, color: veil(alpha@) },
            Point { x: bounds.0@, y: -1real, color: veil(alpha@) },
            Point { x: bounds.1@, y: -1real, color: veil(alpha@) },
            Point { x: bounds.1@, y: 1real, color: veil(alpha@) },
        ]);
    }
    window
}

/// A sample with its time counted in milliseconds from the start of the plot.
pub struct DataPoint {
    pub y: Vec<i64>,
    pub x: u64,
}

/// A grid whose divisions are counted in milliseconds and in whole units.
#[derive(Clone, Copy, Debug, PartialEq, Eq, Structural)]
pub struct GridScale {
    pub x: X,
    pub y_divisions: u32,
    pub units_per_division: u32,
}

/// Where the time `x` is drawn, `delta` milliseconds after the start of the plot: the
/// plot shows the last `divisions * milliseconds_per_division` milliseconds.
pub open spec fn normalized_time(x: u64, delta: u64, scale: GridScale) -> real {
    ranged(
        (x - delta) as real,
        -((scale.x.divisions * scale.x.milliseconds_per_division) as real),
        0real,
        -1real,
        1real,
    )
}

/// Where the value `y` is drawn: the plot shows `y_divisions * units_per_division` units,
/// half of them above zero.
pub open spec fn normalized_value(y: i64, scale: GridScale) -> real {
    ranged(
        y as real,
        -(quotient(scale.y_divisions as int, 2) * (scale.units_per_division as real)),
        quotient(scale.y_divisions as int, 2) * (scale.units_per_division as real),
        -1real,
        1real,
    )
}

proof fn lemma_extent_not_zero(a: int, b: int)
    by (nonlinear_arith)
    requires
        a > 0,
        b > 0,
    ensures
        (a * b) as real != 0real,
        -((a * b) as real) != 0real,
        (a as real / 2 as real) * (b as real) != -((a as real / 2 as real) * (b as real)),
{
}

/// The place on the screen of a sample's time and of each of its values.
pub fn normalize_datapoint(data_point: &DataPoint, grid: &GridScale, delta: u64) -> (r: (
    Rational,
    Vec<Rational>,
))
    requires
        grid.x.divisions > 0,
        grid.x.milliseconds_per_division > 0,
        grid.y_divisions > 0,
        grid.units_per_division > 0,
    ensures
        r.0@ == normalized_time(data_point.x, delta, *grid),
        r.1@.len() == data_point.y@.len(),
        forall|i: int|
            0 <= i < r.1@.len() ==> (#[trigger] r.1@[i])@ == normalized_value(
                data_point.y@[i],
                *grid,
            ),
{
    let low = Rational::from_i64(-1);
    let high = Rational::from_i64(1);
    proof {
        lemma_extent_not_zero(grid.x.divisions as int, grid.x.milliseconds_per_division as int);
        lemma_extent_not_zero(grid.y_divisions as int, grid.units_per_division as int);
    }
    let since = Rational::from_integer(
        Integer::from_u64(data_point.x).sub(&Integer::from_u64(delta)),
    );
    let shown = Rational::from_integer(
        Integer::from_u64(grid.x.divisions as u64).mul(
            &Integer::from_u64(grid.x.milliseconds_per_division as u64),
        ),
    );
    let x = transform_range(&since, &shown.neg(), &Rational::from_i64(0), &low, &high);
    let half = Rational::from_ratio(grid.y_divisions as i64, 2).mul(
        &Rational::from_i64(grid.units_per_division as i64),
    );
    let mut y: Vec<Rational> = Vec::new();
    let mut i: usize = 0;
    while i < data_point.y.len()
        invariant
            i <= data_point.y@.len(),
            y@.len() == i,
            low@ == -1real,
            high@ == 1real,
            half@ == quotient(grid.y_divisions as int, 2) * (grid.units_per_division as real),
            half@ != -half@,
            forall|k: int|
                0 <= k < i ==> (#[trigger] y@[k])@ == normalized_value(data_point.y@[k], *grid),
        decreases data_point.y.len() - i,
    {
        let value = Rational::from_i64(data_point.y[i]);
        y.push(transform_range(&value, &half.neg(), &half, &low, &high));
        i += 1;
    }
    (x, y)
}

#[verifier::rlimit(1)]
proof fn lemma_part_of_a_width(k: real, width: real, count: real)
    by (nonlinear_arith)
    requires
        0real <= k < count,
        width > 0real,
    ensures
        0real <= (k * width) / count < width,
{
}

/// The graph of a fitted polynomial spans the window of the fit and no more: every one
/// of its points lies at a time in the window.
pub proof fn lemma_overlay_lies_in_the_window(window: TimeWindow, k: int)
    requires
        window.start < window.end,
        0 <= k < OVERLAY_POINTS,
    ensures
        window.start as real <= overlay_time(window, k) < window.end as real,
        overlay_time(window, 0) == window.start as real,
{
    lemma_part_of_a_width(
        k as real,
        (window.end - window.start) as real,
        OVERLAY_POINTS as real,
    );
    let width = (window.end - window.start) as real;
    assert((0real * width) / (OVERLAY_POINTS as real) == 0real) by (nonlinear_arith);
}

#[verifier::rlimit(1)]
proof fn lemma_screen_range(a: real, divisions: real)
    by (nonlinear_arith)
    requires
        divisions > 0real,
        -divisions <= a < 0real,
    ensures
        -1real <= (a + divisions / 2real) * (2real / divisions) < 1real,
{
}

#[verifier::rlimit(1)]
proof fn lemma_divisions_back(t: real, ticks: real, divisions: real)
    by (nonlinear_arith)
    requires
        ticks > 0real,
        divisions > 0real,
        -(divisions * ticks) <= t < 0real,
    ensures
        -divisions <= t / ticks < 0real,
{
}

/// A time in the visible window of a plot is drawn on the screen: the plot shows the
/// last `divisions * ticks` ticks before its end, and carries them to the places from
/// -1 up to but without 1.
pub proof fn lemma_visible_times_are_on_the_screen(t: i64, end: i64, divisions: u32, ticks: u32)
    requires
        divisions > 0,
        ticks > 0,
        end - divisions * ticks <= t < end,
    ensures
        -1real <= screen_x(t as real, end, divisions, ticks) < 1real,
{
    crate::algebra::lemma_real_of_product(divisions as int, ticks as int);
    lemma_divisions_back((t - end) as real, ticks as real, divisions as real);
    lemma_screen_range((t as real - end as real) / (ticks as real), divisions as real);
}

} // verus!
