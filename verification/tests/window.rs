use rt_plot::selector::step_ticks;
use rt_plot::selector::Action;
use rt_plot::selector::Event;
use rt_plot::selector::FreezeState;
use rt_plot::selector::Stride;
use rt_plot::selector::WindowSelector;
use rt_plot::solve::Type;
use rt_plot::window::current_time;
use rt_plot::window::narrow;
use rt_plot::window::pan;
use rt_plot::window::ticks_elapsed;
use rt_plot::window::widen;
use rt_plot::window::window_for;
use rt_plot::window::TimeWindow;

fn w(start: i64, end: i64) -> TimeWindow {
    TimeWindow { start, end }
}

#[test]
fn live_window_ends_now_and_is_as_wide_as_the_plot() {
    assert_eq!(window_for(5000, 100, 1000), w(4100, 5100));
    assert_eq!(window_for(0, 100, 1000), w(0, 100));
    assert_eq!(window_for(900, 100, 1000), w(0, 1000));
    assert_eq!(window_for(901, 100, 1000), w(1, 1001));
}

#[test]
fn live_window_does_not_start_below_zero() {
    assert_eq!(window_for(10, 0, 1000), w(0, 10));
    assert_eq!(window_for(10, -30, 1000), w(0, -20));
}

#[test]
fn live_window_stops_at_the_largest_time() {
    assert_eq!(window_for(i64::MAX, i64::MAX, 10), w(i64::MAX - 10, i64::MAX));
    assert_eq!(window_for(i64::MIN, i64::MIN, 10), w(0, i64::MIN));
}

#[test]
fn window_holds_its_start_and_not_its_end() {
    let window = w(3, 6);
    assert!(!window.holds(2));
    assert!(window.holds(3));
    assert!(window.holds(5));
    assert!(!window.holds(6));
}

#[test]
fn pan_moves_both_bounds() {
    assert_eq!(pan(w(10, 20), w(0, 100), 5), w(15, 25));
    assert_eq!(pan(w(10, 20), w(0, 100), -5), w(5, 15));
    assert_eq!(pan(w(10, 20), w(0, 100), 0), w(10, 20));
}

#[test]
fn pan_stops_at_the_visible_window() {
    assert_eq!(pan(w(10, 20), w(0, 100), -10), w(0, 10));
    assert_eq!(pan(w(10, 20), w(0, 100), -11), w(10, 20));
    assert_eq!(pan(w(10, 20), w(0, 100), 80), w(90, 100));
    assert_eq!(pan(w(10, 20), w(0, 100), 81), w(10, 20));
    assert_eq!(pan(w(10, 20), w(0, 100), i64::MAX), w(10, 20));
    assert_eq!(pan(w(10, 20), w(0, 100), i64::MIN), w(10, 20));
}

#[test]
fn widen_moves_the_bounds_apart() {
    assert_eq!(widen(w(10, 20), w(0, 100), 3), w(7, 23));
    assert_eq!(widen(w(10, 20), w(0, 100), 10), w(0, 30));
    assert_eq!(widen(w(10, 20), w(0, 100), 11), w(10, 20));
    assert_eq!(widen(w(10, 95), w(0, 100), 6), w(10, 95));
    assert_eq!(widen(w(10, 20), w(0, 100), u64::MAX), w(10, 20));
}

#[test]
fn narrow_moves_the_bounds_together() {
    assert_eq!(narrow(w(10, 50), 5, 20), w(15, 45));
    assert_eq!(narrow(w(10, 50), 10, 20), w(20, 40));
    assert_eq!(narrow(w(10, 50), 11, 20), w(10, 50));
    assert_eq!(narrow(w(10, 29), 0, 20), w(10, 29));
    assert_eq!(narrow(w(10, 50), u64::MAX, 0), w(10, 50));
}

#[test]
fn selector_starts_live() {
    let selector = WindowSelector::new(10, 3);
    let s = selector.selection();
    assert_eq!(s.freeze, FreezeState::Live);
    assert_eq!(s.sub_window, None);
    assert_eq!(s.approximation, None);
    assert_eq!(s.focused_channel, None);
    assert_eq!(selector.visible(w(1, 2)), w(1, 2));
    assert_eq!(selector.fit_request(), None);
}

#[test]
fn freeze_captures_the_live_window() {
    let mut selector = WindowSelector::new(10, 3);
    assert_eq!(selector.apply(Event::ToggleFreeze, w(100, 1100)), Action::Continue);
    let s = selector.selection();
    assert_eq!(s.freeze, FreezeState::Frozen(w(100, 1100)));
    assert_eq!(s.sub_window, Some(w(100, 1100)));
    assert_eq!(selector.visible(w(500, 1500)), w(100, 1100));
    selector.apply(Event::ToggleFreeze, w(500, 1500));
    let s = selector.selection();
    assert_eq!(s.freeze, FreezeState::Live);
    assert_eq!(s.sub_window, None);
    assert_eq!(selector.visible(w(500, 1500)), w(500, 1500));
}

#[test]
fn kinds_of_fit_come_in_a_cycle_while_frozen() {
    let mut selector = WindowSelector::new(10, 3);
    selector.apply(Event::CycleApproximation, w(0, 1000));
    assert_eq!(selector.selection().approximation, None);
    selector.apply(Event::ToggleFreeze, w(0, 1000));
    let mut seen = Vec::new();
    for _ in 0..5 {
        selector.apply(Event::CycleApproximation, w(0, 1000));
        seen.push(selector.selection().approximation);
    }
    assert_eq!(
        seen,
        vec![
            Some(Type::Constant),
            Some(Type::Linear),
            Some(Type::Quadratic),
            None,
            Some(Type::Constant)
        ]
    );
    selector.apply(Event::ToggleFreeze, w(0, 1000));
    assert_eq!(selector.selection().approximation, None);
}

#[test]
fn adjustments_wait_for_a_freeze() {
    let mut selector = WindowSelector::new(10, 3);
    for event in [
        Event::PanLeft(Stride::Press),
        Event::PanRight(Stride::Repeat),
        Event::Narrow(Stride::Press),
        Event::Widen(Stride::Press),
    ] {
        selector.apply(event, w(0, 1000));
        assert_eq!(selector.selection().sub_window, None);
    }
}

#[test]
fn adjustments_move_by_steps() {
    let mut selector = WindowSelector::new(10, 3);
    selector.apply(Event::ToggleFreeze, w(0, 1000));
    selector.apply(Event::Narrow(Stride::Press), w(0, 1000));
    assert_eq!(selector.selection().sub_window, Some(w(10, 990)));
    selector.apply(Event::Narrow(Stride::Repeat), w(0, 1000));
    assert_eq!(selector.selection().sub_window, Some(w(50, 950)));
    selector.apply(Event::Narrow(Stride::Release), w(0, 1000));
    assert_eq!(selector.selection().sub_window, Some(w(50, 950)));
    selector.apply(Event::PanLeft(Stride::Repeat), w(0, 1000));
    assert_eq!(selector.selection().sub_window, Some(w(10, 910)));
    selector.apply(Event::PanLeft(Stride::Repeat), w(0, 1000));
    assert_eq!(selector.selection().sub_window, Some(w(10, 910)));
    selector.apply(Event::PanLeft(Stride::Press), w(0, 1000));
    assert_eq!(selector.selection().sub_window, Some(w(0, 900)));
    selector.apply(Event::PanRight(Stride::Repeat), w(0, 1000));
    assert_eq!(selector.selection().sub_window, Some(w(40, 940)));
    selector.apply(Event::Widen(Stride::Repeat), w(0, 1000));
    assert_eq!(selector.selection().sub_window, Some(w(0, 980)));
    selector.apply(Event::Widen(Stride::Press), w(0, 1000));
    assert_eq!(selector.selection().sub_window, Some(w(0, 980)));
}

#[test]
fn narrowing_stops_at_twenty_steps() {
    let mut selector = WindowSelector::new(10, 1);
    selector.apply(Event::ToggleFreeze, w(0, 300));
    for _ in 0..10 {
        selector.apply(Event::Narrow(Stride::Press), w(0, 300));
    }
    assert_eq!(selector.selection().sub_window, Some(w(50, 250)));
    selector.apply(Event::Narrow(Stride::Repeat), w(0, 300));
    assert_eq!(selector.selection().sub_window, Some(w(50, 250)));
    selector.apply(Event::Narrow(Stride::Press), w(0, 300));
    assert_eq!(selector.selection().sub_window, Some(w(50, 250)));
}

#[test]
fn sub_window_stays_inside_the_frozen_window() {
    let visible = w(1000, 2000);
    let mut selector = WindowSelector::new(7, 1);
    selector.apply(Event::ToggleFreeze, visible);
    let events = [
        Event::Narrow(Stride::Repeat),
        Event::PanLeft(Stride::Repeat),
        Event::PanLeft(Stride::Repeat),
        Event::Widen(Stride::Repeat),
        Event::PanRight(Stride::Repeat),
        Event::Widen(Stride::Press),
        Event::Narrow(Stride::Repeat),
    ];
    for round in 0..40 {
        let event = events[round % events.len()];
        selector.apply(event, w(5000, 6000));
        let sub = selector.selection().sub_window.unwrap();
        assert!(visible.start <= sub.start && sub.end <= visible.end);
        assert!(sub.end - sub.start >= 140);
        assert!(sub.end - sub.start <= 1000);
    }
}

#[test]
fn focus_takes_a_channel_that_exists() {
    let mut selector = WindowSelector::new(10, 3);
    selector.apply(Event::Focus(2), w(0, 1));
    assert_eq!(selector.selection().focused_channel, Some(2));
    selector.apply(Event::Focus(3), w(0, 1));
    assert_eq!(selector.selection().focused_channel, Some(2));
    selector.apply(Event::Focus(0), w(0, 1));
    assert_eq!(selector.selection().focused_channel, Some(0));
    selector.apply(Event::Unfocus, w(0, 1));
    assert_eq!(selector.selection().focused_channel, None);
}

#[test]
fn quit_ends_the_program_and_changes_nothing() {
    let mut selector = WindowSelector::new(10, 3);
    selector.apply(Event::ToggleFreeze, w(0, 1000));
    selector.apply(Event::Focus(1), w(0, 1000));
    assert_eq!(selector.apply(Event::Quit, w(0, 1000)), Action::Quit);
    assert_eq!(selector.selection().sub_window, Some(w(0, 1000)));
    assert_eq!(selector.selection().focused_channel, Some(1));
}

#[test]
fn fit_is_asked_for_when_window_kind_and_channel_are_chosen() {
    let mut selector = WindowSelector::new(10, 3);
    selector.apply(Event::Focus(1), w(0, 1000));
    assert_eq!(selector.fit_request(), None);
    selector.apply(Event::ToggleFreeze, w(0, 1000));
    assert_eq!(selector.fit_request(), None);
    selector.apply(Event::CycleApproximation, w(0, 1000));
    assert_eq!(selector.fit_request(), Some((w(0, 1000), Type::Constant, 1)));
    selector.apply(Event::Unfocus, w(0, 1000));
    assert_eq!(selector.fit_request(), None);
}

#[test]
fn ticks_follow_the_clock() {
    assert_eq!(ticks_elapsed(0, 1000), 0);
    assert_eq!(ticks_elapsed(1500, 1000), 1500);
    assert_eq!(ticks_elapsed(1500, 100), 150);
    assert_eq!(ticks_elapsed(1999, 1), 1);
    assert_eq!(ticks_elapsed(u64::MAX, u32::MAX), i64::MAX);
}

#[test]
fn clock_is_read_in_milliseconds() {
    assert_eq!(current_time(0, 0), 0);
    assert_eq!(current_time(12, 345_678_901), 12_345);
    assert_eq!(current_time(1, 999_999), 1000);
    assert_eq!(current_time(u64::MAX, 0), u64::MAX);
}

#[test]
fn step_is_a_hundredth_of_a_division_and_a_tick_at_the_least() {
    assert_eq!(step_ticks(1000), 10);
    assert_eq!(step_ticks(100), 1);
    assert_eq!(step_ticks(199), 1);
    assert_eq!(step_ticks(200), 2);
    assert_eq!(step_ticks(99), 1);
    assert_eq!(step_ticks(0), 1);
    assert_eq!(step_ticks(u32::MAX), 42949672);
}
