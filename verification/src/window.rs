//! Time windows: the visible range of the plot and the part of it that a fit reads.

use vstd::prelude::*;

verus! {

/// A half-open range of time, from `start` up to but without `end`, in ticks.
#[derive(Clone, Copy, Debug, PartialEq, Eq, Structural)]
pub struct TimeWindow {
    pub start: i64,
    pub end: i64,
}

impl TimeWindow {
    /// Whether the time `t` lies in the window.
    pub open spec fn contains(self, t: i64) -> bool {
        self.start <= t < self.end
    }

    /// The length of the window; zero or less where it holds no time.
    pub open spec fn width(self) -> int {
        self.end - self.start
    }

    /// Whether the window lies within `outer`.
    pub open spec fn within(self, outer: TimeWindow) -> bool {
        outer.start <= self.start && self.end <= outer.end
    }

    /// Whether the time `t` lies in the window.
    pub fn holds(&self, t: i64) -> (r: bool)
        ensures
            r == self.contains(t),
    {
        self.start <= t && t < self.end
    }
}

/// The number `x`, brought into the range of times where it lies outside.
pub open spec fn clamp_time(x: int) -> i64 {
    if x < i64::MIN {
        i64::MIN
    } else if x > i64::MAX {
        i64::MAX
    } else {
        x as i64
    }
}

fn clamp(x: i128) -> (r: i64)
    ensures
        r == clamp_time(x as int),
{
    if x < i64::MIN as i128 {
        i64::MIN
    } else if x > i64::MAX as i128 {
        i64::MAX
    } else {
        x as i64
    }
}

/// The visible window of a running plot: it ends `now` ticks after the first sample and
/// is `width` ticks long, but does not start below time zero.
pub open spec fn live_window(now: i64, first_sample_time: i64, width: i64) -> TimeWindow {
    let end = clamp_time(first_sample_time + now);
    TimeWindow {
        start: if end - width < 0 {
            0
        } else {
            clamp_time(end - width)
        },
        end,
    }
}

/// The visible window of a running plot, `now` ticks after its first sample was shown.
pub fn window_for(now: i64, first_sample_time: i64, width: i64) -> (w: TimeWindow)
    ensures
        w == live_window(now, first_sample_time, width),
{
    let end: i64 = clamp(first_sample_time as i128 + now as i128);
    let low: i128 = end as i128 - width as i128;
    let start: i64 = if low < 0 {
        0
    } else {
        clamp(low)
    };
    TimeWindow { start, end }
}

/// The window moved by `delta` ticks, later for a positive `delta`, where that leaves it
/// within `visible`; else the window as it is. A window that ends before it starts is
/// not moved.
pub open spec fn panned(sub: TimeWindow, visible: TimeWindow, delta: int) -> TimeWindow {
    if sub.start <= sub.end && visible.start <= sub.start + delta && sub.end + delta
        <= visible.end {
        TimeWindow { start: (sub.start + delta) as i64, end: (sub.end + delta) as i64 }
    } else {
        sub
    }
}

/// The window with each bound moved outwards by `step` ticks, where that leaves it
/// within `visible`; else the window as it is.
pub open spec fn widened(sub: TimeWindow, visible: TimeWindow, step: int) -> TimeWindow {
    if visible.start <= sub.start - step && sub.end + step <= visible.end {
        TimeWindow { start: (sub.start - step) as i64, end: (sub.end + step) as i64 }
    } else {
        sub
    }
}

/// The window with each bound moved inwards by `step` ticks, where that leaves it
/// `minimum` ticks long or longer; else the window as it is.
pub open spec fn narrowed(sub: TimeWindow, step: int, minimum: int) -> TimeWindow {
    if (sub.end - step) - (sub.start + step) >= minimum {
        TimeWindow { start: (sub.start + step) as i64, end: (sub.end - step) as i64 }
    } else {
        sub
    }
}

/// Moves the window by `delta` ticks unless that takes it out of `visible`.
pub fn pan(sub: TimeWindow, visible: TimeWindow, delta: i64) -> (r: TimeWindow)
    ensures
        r == panned(sub, visible, delta as int),
{
    let start: i128 = sub.start as i128 + delta as i128;
    let end: i128 = sub.end as i128 + delta as i128;
    if sub.start <= sub.end && visible.start as i128 <= start && end <= visible.end as i128 {
        assert(i64::MIN <= start <= end <= i64::MAX);
        TimeWindow { start: start as i64, end: end as i64 }
    } else {
        sub
    }
}

/// Moves each bound of the window outwards by `step` ticks unless that takes it out of
/// `visible`.
pub fn widen(sub: TimeWindow, visible: TimeWindow, step: u64) -> (r: TimeWindow)
    ensures
        r == widened(sub, visible, step as int),
{
    let start: i128 = sub.start as i128 - step as i128;
    let end: i128 = sub.end as i128 + step as i128;
    if visible.start as i128 <= start && end <= visible.end as i128 {
        assert(i64::MIN <= start <= i64::MAX && i64::MIN <= end <= i64::MAX);
        TimeWindow { start: start as i64, end: end as i64 }
    } else {
        sub
    }
}

/// Moves each bound of the window inwards by `step` ticks unless that leaves it shorter
/// than `minimum` ticks.
pub fn narrow(sub: TimeWindow, step: u64, minimum: u64) -> (r: TimeWindow)
    ensures
        r == narrowed(sub, step as int, minimum as int),
{
    let start: i128 = sub.start as i128 + step as i128;
    let end: i128 = sub.end as i128 - step as i128;
    if end - start >= minimum as i128 {
        assert(i64::MIN <= start <= end <= i64::MAX);
        TimeWindow { start: start as i64, end: end as i64 }
    } else {
        sub
    }
}

/// An adjustment of a window that lies within the visible window, and is as long as the
/// minimum or longer, gives a window that lies within the visible window, is no longer
/// than it, and is as long as the minimum or longer.
pub proof fn lemma_adjustments_keep_bounds(
    sub: TimeWindow,
    visible: TimeWindow,
    delta: i64,
    step: u64,
    minimum: u64,
)
    requires
        sub.within(visible),
        sub.width() >= minimum,
    ensures
        panned(sub, visible, delta as int).within(visible),
        widened(sub, visible, step as int).within(visible),
        narrowed(sub, step as int, minimum as int).within(visible),
        minimum <= panned(sub, visible, delta as int).width() <= visible.width(),
        minimum <= widened(sub, visible, step as int).width() <= visible.width(),
        minimum <= narrowed(sub, step as int, minimum as int).width() <= visible.width(),
{
}

/// The ticks of time in `milliseconds` milliseconds, where a second has
/// `ticks_per_second` ticks; parts of a tick are dropped.
pub open spec fn ticks_in(milliseconds: u64, ticks_per_second: u32) -> i64 {
    clamp_time((milliseconds * ticks_per_second) / 1000)
}

/// The ticks of time that have passed after `milliseconds` milliseconds.
pub fn ticks_elapsed(milliseconds: u64, ticks_per_second: u32) -> (r: i64)
    ensures
        r == ticks_in(milliseconds, ticks_per_second),
{
    assert(milliseconds * ticks_per_second <= 0xffff_ffff_ffff_ffff * 0xffff_ffff)
        by (nonlinear_arith)
        requires
            0 <= milliseconds <= 0xffff_ffff_ffff_ffff,
            0 <= ticks_per_second <= 0xffff_ffff,
    ;
    let product: u128 = milliseconds as u128 * ticks_per_second as u128;
    clamp((product / 1000) as i128)
}

/// The milliseconds in `seconds` whole seconds and `nanoseconds` nanoseconds; parts of a
/// millisecond are dropped. The count stops at the largest number that it can hold.
pub open spec fn milliseconds_in(seconds: u64, nanoseconds: u32) -> u64 {
    if seconds * 1000 + nanoseconds / 1_000_000 > u64::MAX {
        u64::MAX
    } else {
        (seconds * 1000 + nanoseconds / 1_000_000) as u64
    }
}

/// The time in milliseconds, from the seconds and nanoseconds that a clock gives.
pub fn current_time(seconds: u64, nanoseconds: u32) -> (r: u64)
    ensures
        r == milliseconds_in(seconds, nanoseconds),
{
    let total: u128 = seconds as u128 * 1000 + (nanoseconds / 1_000_000) as u128;
    if total > u64::MAX as u128 {
        u64::MAX
    } else {
        total as u64
    }
}

} // verus!
