//! What the viewer has chosen: whether the plot runs or stands still, the part of the
//! still plot that a fit reads, the kind of fit, and the channel in focus.

use crate::solve::Type;
use crate::window::TimeWindow;
use crate::window::narrow;
use crate::window::narrowed;
use crate::window::pan;
use crate::window::panned;
use crate::window::widen;
use crate::window::widened;
use vstd::prelude::*;

verus! {

/// Whether the plot runs with the clock or stands still on a window that was captured.
#[derive(Clone, Copy, Debug, PartialEq, Eq, Structural)]
pub enum FreezeState {
    Live,
    Frozen(TimeWindow),
}

/// How a key was used: pressed once, held down, or let go.
#[derive(Clone, Copy, Debug, PartialEq, Eq, Structural)]
pub enum Stride {
    Press,
    Repeat,
    Release,
}

/// What the viewer asks for.
#[derive(Clone, Copy, Debug, PartialEq, Eq, Structural)]
pub enum Event {
    /// Stop the plot, or let it run again.
    ToggleFreeze,
    /// Go on to the next kind of fit: none, constant, linear, quadratic, none.
    CycleApproximation,
    /// Move the window of the fit to earlier times.
    PanLeft(Stride),
    /// Move the window of the fit to later times.
    PanRight(Stride),
    /// Make the window of the fit shorter on both sides.
    Narrow(Stride),
    /// Make the window of the fit longer on both sides.
    Widen(Stride),
    /// Put the channel with this index in focus.
    Focus(usize),
    /// Put no channel in focus.
    Unfocus,
    /// End the program.
    Quit,
}

/// What the program does after an event.
#[derive(Clone, Copy, Debug, PartialEq, Eq, Structural)]
pub enum Action {
    Continue,
    Quit,
}

/// The number of steps that a key held down moves a bound by.
pub const STEP_MULTIPLIER: u64 = 4;

/// The number of steps that the window of a fit is long at the least.
pub const MINIMUM_STEPS: u64 = 20;

/// The number of steps in one division of time.
pub const STEPS_PER_DIVISION: u32 = 100;

/// The length of one step in ticks, on a plot with `ticks_per_division` ticks in a
/// division: a hundredth of a division, and one tick at the least.
pub open spec fn step_length(ticks_per_division: u32) -> u32 {
    if ticks_per_division / STEPS_PER_DIVISION >= 1 {
        ticks_per_division / STEPS_PER_DIVISION
    } else {
        1
    }
}

/// The length of one step of the keys that move the window of a fit, in ticks.
pub fn step_ticks(ticks_per_division: u32) -> (r: u32)
    ensures
        r == step_length(ticks_per_division),
        r == if ticks_per_division / 100 >= 1 {
            ticks_per_division / 100
        } else {
            1
        },
        r >= 1,
{
    let step: u32 = ticks_per_division / STEPS_PER_DIVISION;
    if step >= 1 {
        step
    } else {
        1
    }
}

/// The number of steps that one use of a key moves a bound by.
pub open spec fn steps(stride: Stride) -> nat {
    match stride {
        Stride::Press => 1,
        Stride::Repeat => STEP_MULTIPLIER as nat,
        Stride::Release => 0,
    }
}

/// The kind of fit that follows `kind` in the cycle.
pub open spec fn next_kind(kind: Option<Type>) -> Option<Type> {
    match kind {
        None => Some(Type::Constant),
        Some(Type::Constant) => Some(Type::Linear),
        Some(Type::Linear) => Some(Type::Quadratic),
        Some(Type::Quadratic) => None,
    }
}

/// The choices of the viewer, as plain values.
pub struct Selection {
    pub freeze: FreezeState,
    pub sub_window: Option<TimeWindow>,
    pub approximation: Option<Type>,
    pub focused_channel: Option<usize>,
}

/// The choices after `event`, from the choices `s` before it. `live` is the visible
/// window of the running plot at the moment of the event, `resolution` the length of
/// one step in ticks, and `channels` the number of channels.
pub open spec fn after(
    s: Selection,
    event: Event,
    live: TimeWindow,
    resolution: u32,
    channels: usize,
) -> Selection {
    let visible = match s.freeze {
        FreezeState::Live => live,
        FreezeState::Frozen(w) => w,
    };
    let minimum = MINIMUM_STEPS * resolution;
    match event {
        Event::ToggleFreeze => match s.freeze {
            FreezeState::Live => Selection {
                freeze: FreezeState::Frozen(live),
                sub_window: Some(live),
                ..s
            },
            FreezeState::Frozen(_) => Selection {
                freeze: FreezeState::Live,
                sub_window: None,
                approximation: None,
                ..s
            },
        },
        Event::CycleApproximation => match s.freeze {
            FreezeState::Live => s,
            FreezeState::Frozen(_) => Selection { approximation: next_kind(s.approximation), ..s },
        },
        Event::PanLeft(stride) => match s.sub_window {
            None => s,
            Some(w) => Selection {
                sub_window: Some(panned(w, visible, -(steps(stride) * resolution))),
                ..s
            },
        },
        Event::PanRight(stride) => match s.sub_window {
            None => s,
            Some(w) => Selection {
                sub_window: Some(panned(w, visible, steps(stride) * resolution)),
                ..s
            },
        },
        Event::Narrow(stride) => match s.sub_window {
            None => s,
            Some(w) => Selection {
                sub_window: Some(narrowed(w, steps(stride) * resolution, minimum as int)),
                ..s
            },
        },
        Event::Widen(stride) => match s.sub_window {
            None => s,
            Some(w) => Selection {
                sub_window: Some(widened(w, visible, steps(stride) * resolution)),
                ..s
            },
        },
        Event::Focus(channel) => if channel < channels {
            Selection { focused_channel: Some(channel), ..s }
        } else {
            s
        },
        Event::Unfocus => Selection { focused_channel: None, ..s },
        Event::Quit => s,
    }
}

/// The choices of the viewer. While the plot stands still, the window of the fit lies
/// within the window that was captured; while it runs, there is no window of the fit and
/// no kind of fit.
pub struct WindowSelector {
    resolution: u32,
    channels: usize,
    freeze: FreezeState,
    sub_window: Option<TimeWindow>,
    approximation: Option<Type>,
    focused_channel: Option<usize>,
}

impl View for WindowSelector {
    type V = Selection;

    closed spec fn view(&self) -> Selection {
        Selection {
            freeze: self.freeze,
            sub_window: self.sub_window,
            approximation: self.approximation,
            focused_channel: self.focused_channel,
        }
    }
}

/// Whether the choices can be those of a selector for `channels` channels.
pub open spec fn coherent(s: Selection, channels: usize) -> bool {
    &&& match s.freeze {
        FreezeState::Live => s.sub_window is None && s.approximation is None,
        FreezeState::Frozen(visible) => s.sub_window is Some && s.sub_window->Some_0.within(
            visible,
        ),
    }
    &&& s.focused_channel is Some ==> s.focused_channel->Some_0 < channels
}

fn stride_length(stride: Stride, resolution: u32) -> (n: u64)
    ensures
        n == steps(stride) * resolution,
        n <= STEP_MULTIPLIER * u32::MAX,
{
    match stride {
        Stride::Press => resolution as u64,
        Stride::Repeat => STEP_MULTIPLIER * (resolution as u64),
        Stride::Release => 0,
    }
}

impl WindowSelector {
    #[verifier::type_invariant]
    spec fn well_formed(self) -> bool {
        coherent(self@, self.channels)
    }

    /// The length of one step, in ticks.
    pub closed spec fn resolution(&self) -> u32 {
        self.resolution
    }

    /// The number of channels that can be put in focus.
    pub closed spec fn channels(&self) -> usize {
        self.channels
    }

    /// The selector of a running plot with nothing in focus.
    pub fn new(resolution: u32, channels: usize) -> (r: WindowSelector)
        ensures
            r.resolution() == resolution,
            r.channels() == channels,
            r@ == (Selection {
                freeze: FreezeState::Live,
                sub_window: None,
                approximation: None,
                focused_channel: None,
            }),
    {
        WindowSelector {
            resolution,
            channels,
            freeze: FreezeState::Live,
            sub_window: None,
            approximation: None,
            focused_channel: None,
        }
    }

    /// The choices as plain values. They are coherent.
    pub fn selection(&self) -> (s: Selection)
        ensures
            s == self@,
            coherent(s, self.channels()),
    {
        proof {
            use_type_invariant(self);
        }
        Selection {
            freeze: self.freeze,
            sub_window: self.sub_window,
            approximation: self.approximation,
            focused_channel: self.focused_channel,
        }
    }

    /// The window that is shown: the one that was captured while the plot stands still,
    /// else `live`.
    pub fn visible(&self, live: TimeWindow) -> (w: TimeWindow)
        ensures
            w == (match self@.freeze {
                FreezeState::Live => live,
                FreezeState::Frozen(captured) => captured,
            }),
    {
        match self.freeze {
            FreezeState::Live => live,
            FreezeState::Frozen(captured) => captured,
        }
    }

    /// The fit that is to be made for the next frame: its window, its kind and its
    /// channel, where all three are chosen.
    pub fn fit_request(&self) -> (r: Option<(TimeWindow, Type, usize)>)
        ensures
            r == (if self@.sub_window is Some && self@.approximation is Some
                && self@.focused_channel is Some {
                Some(
                    (
                        self@.sub_window->Some_0,
                        self@.approximation->Some_0,
                        self@.focused_channel->Some_0,
                    ),
                )
            } else {
                None
            }),
            r is Some ==> r->Some_0.2 < self.channels(),
    {
        proof {
            use_type_invariant(self);
        }
        match (self.sub_window, self.approximation, self.focused_channel) {
            (Some(w), Some(kind), Some(channel)) => Some((w, kind, channel)),
            _ => None,
        }
    }

    /// Takes an event. `live` is the visible window of the running plot now.
    pub fn apply(&mut self, event: Event, live: TimeWindow) -> (action: Action)
        ensures
            final(self)@ == after(
                old(self)@,
                event,
                live,
                old(self).resolution(),
                old(self).channels(),
            ),
            final(self).resolution() == old(self).resolution(),
            final(self).channels() == old(self).channels(),
            action == (if event == Event::Quit {
                Action::Quit
            } else {
                Action::Continue
            }),
    {
        proof {
            use_type_invariant(&*self);
        }
        let visible = self.visible(live);
        let minimum: u64 = MINIMUM_STEPS * (self.resolution as u64);
        let mut freeze = self.freeze;
        let mut sub_window = self.sub_window;
        let mut approximation = self.approximation;
        let mut focused_channel = self.focused_channel;
        let mut action = Action::Continue;
        match event {
            Event::ToggleFreeze => match self.freeze {
                FreezeState::Live => {
                    freeze = FreezeState::Frozen(live);
                    sub_window = Some(live);
                },
                FreezeState::Frozen(_) => {
                    freeze = FreezeState::Live;
                    sub_window = None;
                    approximation = None;
                },
            },
            Event::CycleApproximation => match self.freeze {
                FreezeState::Live => {},
                FreezeState::Frozen(_) => {
                    approximation = match self.approximation {
                        None => Some(Type::Constant),
                        Some(Type::Constant) => Some(Type::Linear),
                        Some(Type::Linear) => Some(Type::Quadratic),
                        Some(Type::Quadratic) => None,
                    };
                },
            },
            Event::PanLeft(stride) => match self.sub_window {
                None => {},
                Some(w) => {
                    let by: u64 = stride_length(stride, self.resolution);
                    sub_window = Some(pan(w, visible, -(by as i64)));
                },
            },
            Event::PanRight(stride) => match self.sub_window {
                None => {},
                Some(w) => {
                    let by: u64 = stride_length(stride, self.resolution);
                    sub_window = Some(pan(w, visible, by as i64));
                },
            },
            Event::Narrow(stride) => match self.sub_window {
                None => {},
                Some(w) => {
                    let by: u64 = stride_length(stride, self.resolution);
                    sub_window = Some(narrow(w, by, minimum));
                },
            },
            Event::Widen(stride) => match self.sub_window {
                None => {},
                Some(w) => {
                    let by: u64 = stride_length(stride, self.resolution);
                    sub_window = Some(widen(w, visible, by));
                },
            },
            Event::Focus(channel) => {
                if channel < self.channels {
                    focused_channel = Some(channel);
                }
            },
            Event::Unfocus => {
                focused_channel = None;
            },
            Event::Quit => {
                action = Action::Quit;
            },
        }
        *self = WindowSelector {
            resolution: self.resolution,
            channels: self.channels,
            freeze,
            sub_window,
            approximation,
            focused_channel,
        };
        action
    }
}

/// The shortest that the window of a fit is made, in ticks.
pub open spec fn minimum_width(resolution: u32) -> int {
    MINIMUM_STEPS * resolution
}

/// An event leaves coherent choices coherent: while the plot stands still, the window
/// of the fit stays within the window that was captured.
pub proof fn lemma_events_keep_coherence(
    s: Selection,
    event: Event,
    live: TimeWindow,
    resolution: u32,
    channels: usize,
)
    requires
        coherent(s, channels),
    ensures
        coherent(after(s, event, live, resolution, channels), channels),
{
}

/// While the plot stands still, an event that leaves it standing gives a window of the
/// fit that is no longer than the visible window and, where it was as long as the
/// minimum before, as long as the minimum after.
pub proof fn lemma_events_keep_width(
    s: Selection,
    event: Event,
    live: TimeWindow,
    resolution: u32,
    channels: usize,
)
    requires
        coherent(s, channels),
        s.freeze is Frozen,
        event != Event::ToggleFreeze,
        s.sub_window->Some_0.width() >= minimum_width(resolution),
    ensures
        after(s, event, live, resolution, channels).freeze == s.freeze,
        after(s, event, live, resolution, channels).sub_window is Some,
        minimum_width(resolution) <= after(
            s,
            event,
            live,
            resolution,
            channels,
        ).sub_window->Some_0.width() <= s.freeze->Frozen_0.width(),
{
}

/// The plot stops and runs again on the event that asks for it, and on no other.
pub proof fn lemma_freeze_follows_the_viewer(
    s: Selection,
    event: Event,
    live: TimeWindow,
    resolution: u32,
    channels: usize,
)
    ensures
        event != Event::ToggleFreeze ==> after(s, event, live, resolution, channels).freeze
            == s.freeze,
        event == Event::ToggleFreeze ==> (after(s, event, live, resolution, channels).freeze
            is Frozen <==> s.freeze is Live),
        event == Event::ToggleFreeze && s.freeze is Live ==> after(
            s,
            event,
            live,
            resolution,
            channels,
        ).freeze == FreezeState::Frozen(live),
{
}

} // verus!
