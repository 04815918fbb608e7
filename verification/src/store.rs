//! The history of samples: for each time at most one vector of channel values, in order
//! of time.

use crate::window::TimeWindow;
use std::collections::BTreeMap;
use vstd::prelude::*;

verus! {

/// One sample: a time in ticks and the value of each channel at that time.
#[derive(Debug)]
pub struct Sample {
    pub time: i64,
    pub values: Vec<i64>,
}

impl View for Sample {
    type V = (i64, Seq<i64>);

    open spec fn view(&self) -> (i64, Seq<i64>) {
        (self.time, self.values@)
    }
}

/// The views of a list of samples.
pub open spec fn sample_views(samples: Seq<Sample>) -> Seq<(i64, Seq<i64>)> {
    Seq::new(samples.len(), |i: int| samples[i]@)
}

/// Why a sample was not taken.
#[derive(Clone, Copy, Debug, PartialEq, Eq, Structural)]
pub enum IngestError {
    /// The sample does not have one value for each channel.
    ConfigMismatch,
    /// The line is not made of numbers with one space between them.
    Malformed,
}

/// Whether `entries` are the samples of `history` in the window, in order of time: the
/// times rise strictly, each entry is a sample of the history in the window, and no such
/// sample is left out.
pub open spec fn is_window_of(
    entries: Seq<(i64, Seq<i64>)>,
    history: Map<i64, Seq<i64>>,
    window: TimeWindow,
) -> bool {
    &&& forall|i: int, j: int| 0 <= i < j < entries.len() ==> entries[i].0 < entries[j].0
    &&& forall|i: int|
        0 <= i < entries.len() ==> window.contains(#[trigger] entries[i].0) && history.contains_key(
            entries[i].0,
        ) && history[entries[i].0] == entries[i].1
    &&& forall|t: i64|
        history.contains_key(t) && window.contains(t) ==> exists|i: int|
            0 <= i < entries.len() && #[trigger] entries[i].0 == t
}

/// The samples of `history` in the window, in order of time.
pub open spec fn window_entries(history: Map<i64, Seq<i64>>, window: TimeWindow) -> Seq<
    (i64, Seq<i64>),
> {
    choose|entries: Seq<(i64, Seq<i64>)>| is_window_of(entries, history, window)
}

/// Two lists that both are the samples of one history in one window are the same list.
pub proof fn lemma_window_unique(
    a: Seq<(i64, Seq<i64>)>,
    b: Seq<(i64, Seq<i64>)>,
    history: Map<i64, Seq<i64>>,
    window: TimeWindow,
)
    requires
        is_window_of(a, history, window),
        is_window_of(b, history, window),
    ensures
        a == b,
    decreases a.len(),
{
    if a.len() == 0 {
        if b.len() > 0 {
            let t: i64 = b[0].0;
            assert(history.contains_key(t) && window.contains(t));
            let i: int = choose|i: int| 0 <= i < a.len() && #[trigger] a[i].0 == t;
        }
        assert(a =~= b);
    } else {
        let last: i64 = a.last().0;
        assert(history.contains_key(last) && window.contains(last));
        let at: int = choose|i: int| 0 <= i < b.len() && #[trigger] b[i].0 == last;
        if at < b.len() - 1 {
            let more: i64 = b.last().0;
            assert(b[at].0 < b[b.len() - 1].0);
            assert(history.contains_key(more) && window.contains(more));
            let back: int = choose|i: int| 0 <= i < a.len() && #[trigger] a[i].0 == more;
            if back < a.len() - 1 {
                assert(a[back].0 < a[a.len() - 1].0);
            }
        }
        assert(at == b.len() - 1);
        let shorter = TimeWindow { start: window.start, end: last };
        let a0 = a.drop_last();
        let b0 = b.drop_last();
        assert(is_window_of(a0, history, shorter)) by {
            assert forall|i: int| 0 <= i < a0.len() implies shorter.contains(#[trigger] a0[i].0)
                && history.contains_key(a0[i].0) && history[a0[i].0] == a0[i].1 by {
                assert(a0[i] == a[i]);
                assert(a[i].0 < a[a.len() - 1].0);
            }
            assert forall|t: i64| history.contains_key(t) && shorter.contains(t) implies exists|
                i: int,
            |
                0 <= i < a0.len() && #[trigger] a0[i].0 == t by {
                assert(window.contains(last));
                assert(history.contains_key(t) && window.contains(t));
                let i: int = choose|i: int| 0 <= i < a.len() && #[trigger] a[i].0 == t;
                assert(a0[i] == a[i]);
            }
        }
        assert(is_window_of(b0, history, shorter)) by {
            assert forall|i: int| 0 <= i < b0.len() implies shorter.contains(#[trigger] b0[i].0)
                && history.contains_key(b0[i].0) && history[b0[i].0] == b0[i].1 by {
                assert(b0[i] == b[i]);
                assert(b[i].0 < b[b.len() - 1].0);
            }
            assert forall|t: i64| history.contains_key(t) && shorter.contains(t) implies exists|
                i: int,
            |
                0 <= i < b0.len() && #[trigger] b0[i].0 == t by {
                assert(window.contains(last));
                assert(history.contains_key(t) && window.contains(t));
                let i: int = choose|i: int| 0 <= i < b.len() && #[trigger] b[i].0 == t;
                assert(b0[i] == b[i]);
            }
        }
        lemma_window_unique(a0, b0, history, shorter);
        assert(a.last() == b.last());
        assert(a =~= a0.push(a.last()));
        assert(b =~= b0.push(b.last()));
    }
}

/// The times of the map's entries from `start` up to but without `end`, rising.
///
/// This is `BTreeMap::range` over `start..end`, of which only the keys are kept: it walks
/// the entries whose keys lie in the range, in the order of the keys.
#[verifier::external_body]
fn times_in_range(map: &BTreeMap<i64, Vec<i64>>, start: i64, end: i64) -> (times: Vec<i64>)
    requires
        start <= end,
    ensures
        forall|i: int, j: int| 0 <= i < j < times@.len() ==> times@[i] < times@[j],
        forall|i: int|
            0 <= i < times@.len() ==> start <= #[trigger] times@[i] < end && map@.contains_key(
                times@[i],
            ),
        forall|t: i64| map@.contains_key(t) && start <= t < end ==> times@.contains(t),
{
    map.range(start..end).map(|entry| *entry.0).collect()
}

/// The history of samples, ordered by time. Every sample has one value for each channel,
/// and there are finitely many of them; every function of the store says so of the
/// store that it is given.
pub struct TimeSeriesStore {
    channels: usize,
    first: Option<i64>,
    samples: BTreeMap<i64, Vec<i64>>,
}

impl View for TimeSeriesStore {
    type V = Map<i64, Seq<i64>>;

    closed spec fn view(&self) -> Map<i64, Seq<i64>> {
        self.samples@.map_values(|values: Vec<i64>| values@)
    }
}

impl TimeSeriesStore {
    #[verifier::type_invariant]
    spec fn well_formed(self) -> bool {
        &&& forall|t: i64| #[trigger]
            self.samples@.contains_key(t) ==> self.samples@[t]@.len() == self.channels
        &&& match self.first {
            None => forall|t: i64| !#[trigger] self.samples@.contains_key(t),
            Some(f) => self.samples@.contains_key(f) && forall|t: i64| #[trigger]
                self.samples@.contains_key(t) ==> f <= t,
        }
    }

    /// The number of channels of every sample.
    pub closed spec fn arity(&self) -> nat {
        self.channels as nat
    }

    /// A store without samples, for samples of `channels` values each.
    pub fn new(channels: usize) -> (store: TimeSeriesStore)
        ensures
            store@ == Map::<i64, Seq<i64>>::empty(),
            store@.dom().finite(),
            store.arity() == channels,
    {
        let store = TimeSeriesStore { channels, first: None, samples: BTreeMap::new() };
        assert(store@ =~= Map::<i64, Seq<i64>>::empty());
        store
    }

    /// The number of channels of every sample.
    pub fn channels(&self) -> (n: usize)
        ensures
            n == self.arity(),
            self@.dom().finite(),
    {
        assert(self@.dom() =~= self.samples@.dom());
        self.channels
    }

    /// The number of samples. A store holds a finite number of them.
    pub fn len(&self) -> (n: usize)
        ensures
            n == self@.len(),
            self@.dom().finite(),
    {
        assert(self@.dom() =~= self.samples@.dom());
        self.samples.len()
    }

    /// Whether the store holds no sample.
    pub fn is_empty(&self) -> (r: bool)
        ensures
            r == (self@.len() == 0),
            r == (forall|t: i64| !self@.contains_key(t)),
            self@.dom().finite(),
    {
        let n: usize = self.len();
        proof {
            if n == 0 {
                self@.dom().lemma_len0_is_empty();
                assert forall|t: i64| !self@.contains_key(t) by {
                    assert(!self@.dom().contains(t));
                }
            } else {
                if forall|t: i64| !self@.contains_key(t) {
                    assert(self@.dom() =~= Set::<i64>::empty());
                }
            }
        }
        n == 0
    }

    /// Puts a sample into the store. A sample that the store holds for the same time is
    /// replaced. A sample without one value for each channel is refused, and the store
    /// stays as it was.
    pub fn insert(&mut self, time: i64, values: Vec<i64>) -> (r: Result<(), IngestError>)
        ensures
            final(self).arity() == old(self).arity(),
            values@.len() == old(self).arity() ==> r is Ok && final(self)@ == old(self)@.insert(
                time,
                values@,
            ),
            values@.len() != old(self).arity() ==> r == Err::<(), IngestError>(
                IngestError::ConfigMismatch,
            ) && final(self)@ == old(self)@,
            old(self)@.dom().finite(),
            final(self)@.dom().finite(),
    {
        proof {
            use_type_invariant(&*self);
            assert(self@.dom() =~= self.samples@.dom());
        }
        if values.len() != self.channels {
            return Err(IngestError::ConfigMismatch);
        }
        let ghost before = self.samples@;
        let ghost seq = values@;
        let first: Option<i64> = match self.first {
            None => Some(time),
            Some(f) => if time < f {
                Some(time)
            } else {
                Some(f)
            },
        };
        let mut taken = TimeSeriesStore {
            channels: self.channels,
            first: None,
            samples: BTreeMap::new(),
        };
        core::mem::swap(self, &mut taken);
        let mut samples = taken.samples;
        samples.insert(time, values);
        proof {
            assert(samples@ == before.insert(time, values));
        }
        *self = TimeSeriesStore { channels: taken.channels, first, samples };
        proof {
            assert(self@ =~= before.map_values(|values: Vec<i64>| values@).insert(time, seq));
            assert(self@.dom() =~= self.samples@.dom());
        }
        Ok(())
    }

    /// The values of the sample at `time`, where there is one.
    pub fn get(&self, time: i64) -> (r: Option<Vec<i64>>)
        ensures
            r is Some <==> self@.contains_key(time),
            r is Some ==> r->Some_0@ == self@[time] && r->Some_0@.len() == self.arity(),
            self@.dom().finite(),
    {
        proof {
            use_type_invariant(self);
            assert(self@.dom() =~= self.samples@.dom());
        }
        match self.samples.get(&time) {
            Some(values) => Some(values.clone()),
            None => None,
        }
    }

    /// The time of the earliest sample, where there is one.
    pub fn first_time(&self) -> (r: Option<i64>)
        ensures
            r is None <==> self@.len() == 0,
            r is None <==> (forall|t: i64| !self@.contains_key(t)),
            self@.dom().finite(),
            r is Some ==> self@.contains_key(r->Some_0) && forall|t: i64|
                self@.contains_key(t) ==> r->Some_0 <= t,
    {
        proof {
            use_type_invariant(self);
            assert(self@.dom() =~= self.samples@.dom());
            if self.first is None {
                assert(self@.dom() =~= Set::<i64>::empty());
            } else {
                assert(self@.dom().contains(self.first->Some_0));
                if self@.len() == 0 {
                    self@.dom().lemma_len0_is_empty();
                }
            }
        }
        self.first
    }

    /// The samples in the window, in order of time.
    pub fn range_query(&self, window: &TimeWindow) -> (r: Vec<Sample>)
        ensures
            sample_views(r@) == window_entries(self@, *window),
            is_window_of(sample_views(r@), self@, *window),
            forall|i: int| 0 <= i < r@.len() ==> (#[trigger] r@[i]).values@.len() == self.arity(),
            self@.dom().finite(),
    {
        proof {
            use_type_invariant(self);
            assert(self@.dom() =~= self.samples@.dom());
        }
        let mut out: Vec<Sample> = Vec::new();
        if window.start <= window.end {
            let times = times_in_range(&self.samples, window.start, window.end);
            let mut i: usize = 0;
            while i < times.len()
                invariant
                    i <= times.len(),
                    out@.len() == i,
                    forall|k: int| 0 <= k < times@.len() ==> self.samples@.contains_key(
                        #[trigger] times@[k],
                    ),
                    forall|t: i64| #[trigger]
                        self.samples@.contains_key(t) ==> self.samples@[t]@.len() == self.channels,
                    forall|k: int|
                        0 <= k < i ==> (#[trigger] out@[k]).time == times@[k] && out@[k].values@
                            == self.samples@[times@[k]]@,
                decreases times.len() - i,
            {
                let time: i64 = times[i];
                match self.samples.get(&time) {
                    Some(values) => {
                        out.push(Sample { time, values: values.clone() });
                    },
                    None => {
                        assert(false);
                    },
                }
                i += 1;
            }
            proof {
                let entries = sample_views(out@);
                assert forall|t: i64|
                    self@.contains_key(t) && window.contains(t) implies exists|k: int|
                    0 <= k < entries.len() && #[trigger] entries[k].0 == t by {
                    assert(self.samples@.contains_key(t));
                    assert(times@.contains(t));
                    let k: int = choose|k: int| 0 <= k < times@.len() && times@[k] == t;
                    assert(entries[k].0 == t);
                }
                assert(is_window_of(entries, self@, *window));
            }
        } else {
            proof {
                assert(is_window_of(sample_views(out@), self@, *window));
            }
        }
        proof {
            let entries = sample_views(out@);
            let chosen = window_entries(self@, *window);
            assert(is_window_of(chosen, self@, *window));
            lemma_window_unique(entries, chosen, self@, *window);
        }
        out
    }
}

/// A sample that is put in at a time at which the history holds one takes its place:
/// the history holds the new values at that time, the same times as before, and is what
/// it would be had the first sample never been put in.
pub proof fn lemma_insert_replaces(
    history: Map<i64, Seq<i64>>,
    time: i64,
    first: Seq<i64>,
    second: Seq<i64>,
)
    ensures
        history.insert(time, first).insert(time, second) == history.insert(time, second),
        history.insert(time, first).insert(time, second)[time] == second,
        history.insert(time, first).insert(time, second).dom() == history.insert(time, first).dom(),
{
    assert(history.insert(time, first).insert(time, second) =~= history.insert(time, second));
    assert(history.insert(time, first).insert(time, second).dom() =~= history.insert(
        time,
        first,
    ).dom());
}

/// A sample that is put in leaves the samples at other times as they are: the history
/// only grows.
pub proof fn lemma_insert_keeps_the_rest(
    history: Map<i64, Seq<i64>>,
    time: i64,
    values: Seq<i64>,
    other: i64,
)
    requires
        other != time,
    ensures
        history.insert(time, values).contains_key(other) == history.contains_key(other),
        history.contains_key(other) ==> history.insert(time, values)[other] == history[other],
        history.insert(time, values).contains_key(time),
{
}

/// A sample that is put into a finite history at a time at which the history holds none
/// makes the history one sample larger; at a time at which it holds one, the history
/// stays as large as it was.
pub proof fn lemma_insert_counts(history: Map<i64, Seq<i64>>, time: i64, values: Seq<i64>)
    requires
        history.dom().finite(),
    ensures
        history.insert(time, values).dom().finite(),
        !history.contains_key(time) ==> history.insert(time, values).len() == history.len() + 1,
        history.contains_key(time) ==> history.insert(time, values).len() == history.len(),
{
    assert(history.insert(time, values).dom() =~= history.dom().insert(time));
}

} // verus!
