//! The feed's arrival timing: the rate, the age of the last message, and
//! whether the quiet since it counts as a stall
//!
//! Everything read off the clock as messages land lives here. Times are
//! readings of a monotonic clock in nanoseconds. Whether a gap is an outlier of
//! the recent ones is a verdict taken as an argument: the mean and spread it
//! goes by are the caller's to work out of [`intervals`](Cadence::intervals).

use crate::connection::{elapsed, since, SECOND};
use std::collections::VecDeque;
use vstd::prelude::*;

verus! {

broadcast use vstd::std_specs::vecdeque::axiom_spec_len;

/// How long an arrival counts toward the rate shown, in nanoseconds.
pub const RATE_WINDOW: u128 = 5_000_000_000;

/// The shortest span the rate is averaged over, in nanoseconds
///
/// Until [`RATE_WINDOW`] of history exists the rate is averaged over how long
/// the feed has actually been running, which starts near zero. This floors that
/// span at one second: the reading fills smoothly from zero to the true rate
/// over the first second rather than dividing a message or two by almost
/// nothing and jumping around before it settles.
pub const RATE_WINDOW_MIN: u128 = 1_000_000_000;

/// How many recent inter-arrival gaps feed the stall statistics
///
/// A count, not a time window, so a slow schema still gathers enough samples to
/// judge by. Old gaps fall off the front as new ones arrive, so the statistics
/// track the feed's current cadence.
pub const INTERVAL_SAMPLES: usize = 128;

/// The shortest silence that can count as a stall, in nanoseconds, whatever the
/// statistics say
///
/// The outlier test degenerates when arrivals are near-metronomic: the spread
/// collapses toward zero and the threshold falls to about the mean, so ordinary
/// sub-second jitter reads as a stall. This floor keeps a stall a real pause.
pub const MIN_GAP: u128 = 1_000_000_000;

/// How many one-second rate samples the sparkline keeps -- about three minutes.
pub const RATE_SAMPLES: usize = 180;

/// A sample of the rate: so many arrivals over so many nanoseconds, and whether
/// the feed was stalled at that moment
#[derive(Clone, Copy, Debug, PartialEq, Eq, Structural)]
pub struct Sample {
    pub arrivals: usize,
    pub window: u128,
    pub stalled: bool,
}

/// The feed's arrival timing and the gaps the stall warning reads
#[derive(Debug)]
pub struct Cadence {
    /// When each of the last [`RATE_WINDOW`] of arrivals came in.
    pub arrivals: VecDeque<u128>,
    /// The most recent inter-arrival gaps, bounded to [`INTERVAL_SAMPLES`].
    pub intervals: VecDeque<u128>,
    /// When the most recent message arrived.
    pub last: Option<u128>,
    /// When the first message ever arrived, for scaling the rate window.
    pub first: Option<u128>,
    /// One-per-second samples of the rate, newest last, bounded to
    /// [`RATE_SAMPLES`].
    pub samples: VecDeque<Sample>,
    /// When the rate was last sampled.
    pub last_sample: Option<u128>,
}

/// The arrivals that still count, once those from before the window are taken
/// off the front.
pub open spec fn still_counting(arrivals: Seq<u128>, now: u128) -> Seq<u128>
    decreases arrivals.len(),
{
    if arrivals.len() > 0 && since(now, arrivals[0]) > RATE_WINDOW {
        still_counting(arrivals.skip(1), now)
    } else {
        arrivals
    }
}

/// The newest of some values, no more than so many.
pub open spec fn newest<T>(values: Seq<T>, most: nat) -> Seq<T> {
    if values.len() > most {
        values.skip(values.len() - most)
    } else {
        values
    }
}

/// The span a rate is averaged over: how long the feed has been running, no
/// shorter than a second and no longer than the window.
pub open spec fn rate_window(running: u128) -> u128 {
    if running < RATE_WINDOW_MIN {
        RATE_WINDOW_MIN
    } else if running > RATE_WINDOW {
        RATE_WINDOW
    } else {
        running
    }
}

impl Cadence {
    /// Whether the gaps and the samples held are no more than are kept.
    pub open spec fn is_bounded(self) -> bool {
        self.intervals@.len() <= INTERVAL_SAMPLES && self.samples@.len() <= RATE_SAMPLES
    }

    /// Whether nothing has arrived and nothing has been sampled.
    pub open spec fn is_fresh(self) -> bool {
        &&& self.arrivals@.len() == 0
        &&& self.intervals@.len() == 0
        &&& self.last is None
        &&& self.first is None
        &&& self.samples@.len() == 0
        &&& self.last_sample is None
    }

    /// The gap a message arriving now follows, where it counts as a stall.
    pub open spec fn stall_at(self, now: u128, outlier: bool) -> Option<u128> {
        match self.gap_at(now) {
            Some(quiet) if self.stalls(quiet, outlier) => Some(quiet),
            _ => None,
        }
    }

    /// The gap a message arriving now follows, where there is a previous one to
    /// measure from.
    pub open spec fn gap_at(self, now: u128) -> Option<u128> {
        match self.last {
            Some(last) => Some(since(now, last)),
            None => None,
        }
    }

    /// Whether a silence counts as a stall: at least [`MIN_GAP`], with two gaps
    /// to give a spread, and an outlier of them.
    pub open spec fn stalls(self, quiet: u128, outlier: bool) -> bool {
        quiet >= MIN_GAP && self.intervals@.len() >= 2 && outlier
    }

    /// The gap a message arriving now follows.
    pub fn gap(&self, now: u128) -> (gap: Option<u128>)
        ensures
            gap == self.gap_at(now),
    {
        match self.last {
            Some(last) => Some(elapsed(now, last)),
            None => None,
        }
    }

    /// Whether a silence counts as a stall
    ///
    /// At least [`MIN_GAP`], and an outlier past the recent inter-arrival
    /// distribution, which is `outlier` to say. The floor keeps the degenerate
    /// near-zero-spread case from flagging sub-second jitter. [`false`] until
    /// two gaps give a spread.
    pub fn is_stall(&self, quiet: u128, outlier: bool) -> (stall: bool)
        ensures
            stall == self.stalls(quiet, outlier),
    {
        quiet >= MIN_GAP && self.intervals.len() >= 2 && outlier
    }

    /// Record a message arriving at `now`, returning the gap it followed when
    /// that gap was a connection stall
    ///
    /// Files the arrival for the rate and, once there is a previous one to
    /// measure from, the gap since it for the stall statistics -- bounded to
    /// the most recent samples. The gap is judged against the distribution as
    /// it stood before this arrival -- `outlier` says how it stands to it --
    /// and returned when it is a stall, so a resumed feed can be marked where
    /// it stalled.
    pub fn record(&mut self, now: u128, outlier: bool) -> (gap: Option<u128>)
        requires
            old(self).is_bounded(),
        ensures
            final(self).is_bounded(),
            gap == old(self).stall_at(now, outlier),
            recorded(*old(self), *final(self), now),
    {
        self.arrivals.push_back(now);
        let gap = self.gap(now);
        let stall = match gap {
            Some(quiet) => if self.is_stall(quiet, outlier) {
                Some(quiet)
            } else {
                None
            },
            None => None,
        };
        if let Some(quiet) = gap {
            self.intervals.push_back(quiet);
            if self.intervals.len() > INTERVAL_SAMPLES {
                self.intervals.pop_front();
            }
            assert(self.intervals@ =~= newest(
                old(self).intervals@.push(quiet),
                INTERVAL_SAMPLES as nat,
            ));
        }
        self.last = Some(now);
        if self.first.is_none() {
            self.first = Some(now);
        }
        stall
    }

    /// Advance the cadence to `now`: age out old arrivals and sample the rate
    ///
    /// Called every frame, not only on arrival, so the rate decays toward zero
    /// through a silence rather than freezing at the value it last held, and so
    /// the sparkline gets a sample about once a second whether or not messages
    /// are arriving. `outlier` says how the silence since the last arrival
    /// stands to the recent gaps.
    pub fn tick(&mut self, now: u128, outlier: bool)
        requires
            old(self).is_bounded(),
        ensures
            final(self).is_bounded(),
            ticked(*old(self), *final(self), now, outlier),
    {
        let ghost arrived = self.arrivals@;
        while self.arrivals.len() > 0 && elapsed(now, self.arrivals[0]) > RATE_WINDOW
            invariant
                still_counting(arrived, now) == still_counting(self.arrivals@, now),
                self.intervals == old(self).intervals,
                self.last == old(self).last,
                self.first == old(self).first,
                self.samples == old(self).samples,
                self.last_sample == old(self).last_sample,
            decreases self.arrivals@.len(),
        {
            let ghost before = self.arrivals@;
            self.arrivals.pop_front();
            assert(self.arrivals@ =~= before.skip(1));
        }
        let due = match self.last_sample {
            Some(at) => elapsed(now, at) >= SECOND,
            None => true,
        };
        if due {
            self.last_sample = Some(now);
            let sample = self.sample(now, outlier);
            self.samples.push_back(sample);
            if self.samples.len() > RATE_SAMPLES {
                self.samples.pop_front();
            }
            assert(self.samples@ =~= newest(
                old(self).samples@.push(self.sample_at(now, outlier)),
                RATE_SAMPLES as nat,
            ));
        }
    }

    /// The rate and the stall as they stand now.
    pub open spec fn sample_at(self, now: u128, outlier: bool) -> Sample {
        Sample {
            arrivals: match self.first {
                Some(_) => self.arrivals@.len() as usize,
                None => 0,
            },
            window: match self.first {
                Some(first) => rate_window(since(now, first)),
                None => RATE_WINDOW_MIN,
            },
            stalled: match self.last {
                Some(last) => self.stalls(since(now, last), outlier),
                None => false,
            },
        }
    }

    /// The rate and the stall as they stand now
    ///
    /// The rate is messages over how long the feed has been running, growing
    /// from the first message until it reaches [`RATE_WINDOW`]: dividing by the
    /// full window before that much history exists understates the rate at
    /// startup. No message is no rate.
    pub fn sample(&self, now: u128, outlier: bool) -> (sample: Sample)
        ensures
            sample == self.sample_at(now, outlier),
    {
        let stalled = self.stalled(now, outlier);
        match self.first {
            Some(first) => {
                let running = elapsed(now, first);
                let window: u128 = if running < RATE_WINDOW_MIN {
                    RATE_WINDOW_MIN
                } else if running > RATE_WINDOW {
                    RATE_WINDOW
                } else {
                    running
                };
                Sample { arrivals: self.arrivals.len(), window, stalled }
            },
            None => Sample { arrivals: 0, window: RATE_WINDOW_MIN, stalled },
        }
    }

    /// The recent one-per-second samples, oldest first.
    pub fn samples(&self) -> (samples: &VecDeque<Sample>)
        ensures
            *samples == self.samples,
    {
        &self.samples
    }

    /// When the most recent message arrived, if any has.
    pub fn last(&self) -> (last: Option<u128>)
        ensures
            last == self.last,
    {
        self.last
    }

    /// Whether the silence since the last arrival counts as a stall
    ///
    /// The same test the feed's gap marks use, so the dot and the marks agree.
    /// [`false`] before any message arrives.
    pub fn stalled(&self, now: u128, outlier: bool) -> (stalled: bool)
        ensures
            stalled == self.sample_at(now, outlier).stalled,
    {
        match self.last {
            Some(last) => self.is_stall(elapsed(now, last), outlier),
            None => false,
        }
    }
}

impl Default for Cadence {
    fn default() -> (cadence: Self)
        ensures
            cadence.is_fresh(),
    {
        Cadence {
            arrivals: VecDeque::new(),
            intervals: VecDeque::new(),
            last: None,
            first: None,
            samples: VecDeque::new(),
            last_sample: None,
        }
    }
}

/// A cadence with a message recorded: its arrival, and the gap it followed.
pub open spec fn recorded(before: Cadence, after: Cadence, now: u128) -> bool {
    &&& after.arrivals@ == before.arrivals@.push(now)
    &&& after.intervals@ == match before.gap_at(now) {
        Some(quiet) => newest(before.intervals@.push(quiet), INTERVAL_SAMPLES as nat),
        None => before.intervals@,
    }
    &&& after.last == Some(now)
    &&& after.first == match before.first {
        Some(first) => Some(first),
        None => Some(now),
    }
    &&& after.samples == before.samples
    &&& after.last_sample == before.last_sample
}

/// A cadence advanced: the arrivals that no longer count are gone, and the rate
/// is sampled where a second has passed since it last was.
pub open spec fn ticked(before: Cadence, after: Cadence, now: u128, outlier: bool) -> bool {
    &&& after.arrivals@ == still_counting(before.arrivals@, now)
    &&& after.intervals == before.intervals
    &&& after.last == before.last
    &&& after.first == before.first
    &&& if before.last_sample is None || since(now, before.last_sample->0) >= SECOND {
        &&& after.last_sample == Some(now)
        &&& after.samples@ == newest(
            before.samples@.push(after.sample_at(now, outlier)),
            RATE_SAMPLES as nat,
        )
    } else {
        &&& after.last_sample == before.last_sample
        &&& after.samples == before.samples
    }
}

/// A gap under the floor is never a stall, however far out of the ordinary it
/// is, and nothing is one before two gaps give a spread.
pub proof fn a_sub_second_gap_is_never_a_stall(cadence: Cadence, quiet: u128, outlier: bool)
    requires
        quiet < MIN_GAP || cadence.intervals@.len() < 2,
    ensures
        !cadence.stalls(quiet, outlier),
{
}

/// Once the cadence has been advanced, every arrival that still counts came
/// within the window, where arrivals were recorded in the order they came.
pub proof fn what_still_counts_is_recent(arrivals: Seq<u128>, now: u128, i: int)
    requires
        forall|a: int, b: int| 0 <= a <= b < arrivals.len() ==> arrivals[a] <= arrivals[b],
        0 <= i < still_counting(arrivals, now).len(),
    ensures
        since(now, still_counting(arrivals, now)[i]) <= RATE_WINDOW,
    decreases arrivals.len(),
{
    if arrivals.len() > 0 && since(now, arrivals[0]) > RATE_WINDOW {
        what_still_counts_is_recent(arrivals.skip(1), now, i);
    }
}

/// A message is marked with the silence it ended exactly where that was a
/// second or more, out of the ordinary, and there were two gaps before it to
/// tell the ordinary by; and it is the silence since the last message.
pub proof fn a_message_is_marked_with_the_stall_it_ended(
    cadence: Cadence,
    now: u128,
    outlier: bool,
)
    ensures
        cadence.last is None ==> cadence.stall_at(now, outlier) is None,
        cadence.last is Some && now < cadence.last->0 ==> cadence.stall_at(now, outlier) is None,
        cadence.last is Some && now >= cadence.last->0 ==> {
            let quiet = (now - cadence.last->0) as u128;
            if quiet >= 1_000_000_000 && cadence.intervals@.len() >= 2 && outlier {
                cadence.stall_at(now, outlier) == Some(quiet)
            } else {
                cadence.stall_at(now, outlier) is None
            }
        },
{
}

/// A message recorded is the newest arrival, the last there was, and the first
/// where none came before; the silence before it is the newest gap, where there
/// was a message before it, and the oldest gap goes only where there were as
/// many as are kept.
pub proof fn a_message_is_recorded_where_it_stands(
    before: Cadence,
    after: Cadence,
    now: u128,
    i: int,
)
    requires
        before.is_bounded(),
        recorded(before, after, now),
    ensures
        after.arrivals@.len() == before.arrivals@.len() + 1,
        after.arrivals@.last() == now,
        0 <= i < before.arrivals@.len() ==> after.arrivals@[i] == before.arrivals@[i],
        after.last == Some(now),
        before.first is Some ==> after.first == before.first,
        before.first is None ==> after.first == Some(now),
        before.last is None ==> after.intervals@ == before.intervals@,
        before.last is Some && now >= before.last->0 ==> {
            let dropped: int = if before.intervals@.len() == 128 {
                1
            } else {
                0
            };
            &&& after.intervals@.len() == before.intervals@.len() + 1 - dropped
            &&& after.intervals@.last() == now - before.last->0
            &&& 0 <= i < after.intervals@.len() - 1 ==> after.intervals@[i]
                == before.intervals@[i + dropped]
        },
        before.last is Some && now < before.last->0 ==> after.intervals@.last() == 0,
        after.samples@ == before.samples@ && after.last_sample == before.last_sample,
{
}

/// What came within the last five seconds still counts, and only that, where
/// arrivals were recorded in the order they came.
pub proof fn what_is_recent_still_counts(arrivals: Seq<u128>, now: u128, at: u128)
    requires
        forall|a: int, b: int| 0 <= a <= b < arrivals.len() ==> arrivals[a] <= arrivals[b],
        at <= now,
    ensures
        still_counting(arrivals, now).contains(at) <==> arrivals.contains(at) && now - at
            <= 5_000_000_000,
        still_counting(arrivals, now).len() <= arrivals.len(),
        still_counting(arrivals, now) == arrivals.skip(
            arrivals.len() - still_counting(arrivals, now).len(),
        ),
    decreases arrivals.len(),
{
    let kept = still_counting(arrivals, now);
    if arrivals.len() > 0 && since(now, arrivals[0]) > RATE_WINDOW {
        let rest = arrivals.skip(1);
        what_is_recent_still_counts(rest, now, at);
        if arrivals.contains(at) && now - at <= 5_000_000_000 {
            let i = choose|i: int| 0 <= i < arrivals.len() && arrivals[i] == at;
            assert(rest[i - 1] == at);
        }
        if rest.contains(at) {
            let i = choose|i: int| 0 <= i < rest.len() && rest[i] == at;
            assert(arrivals[i + 1] == at);
        }
        assert(arrivals.skip(arrivals.len() - kept.len()) =~= rest.skip(
            rest.len() - kept.len(),
        ));
    } else {
        if arrivals.contains(at) {
            let i = choose|i: int| 0 <= i < arrivals.len() && arrivals[i] == at;
            assert(arrivals[0] <= arrivals[i]);
        }
        assert(arrivals.skip(0) =~= arrivals);
    }
}

/// The rate is sampled where a second or more has passed since it last was, or
/// it never was: how many arrivals still count, over how long the feed has run,
/// which is taken as a second where it is less and five where it is more, and
/// whether the feed was stalled. The oldest sample goes only where there were
/// as many as are kept; and nothing else of the cadence changes.
pub proof fn the_rate_is_sampled_each_second(
    before: Cadence,
    after: Cadence,
    now: u128,
    outlier: bool,
    i: int,
)
    requires
        before.is_bounded(),
        ticked(before, after, now, outlier),
    ensures
        after.intervals == before.intervals && after.last == before.last && after.first
            == before.first,
        after.arrivals@ == still_counting(before.arrivals@, now),
        before.last_sample is Some && now < before.last_sample->0 + 1_000_000_000
            ==> after.samples == before.samples && after.last_sample == before.last_sample,
        before.last_sample is None || now >= before.last_sample->0 + 1_000_000_000 ==> {
            let dropped: int = if before.samples@.len() == 180 {
                1
            } else {
                0
            };
            let sample = after.samples@.last();
            &&& after.last_sample == Some(now)
            &&& after.samples@.len() == before.samples@.len() + 1 - dropped
            &&& 0 <= i < after.samples@.len() - 1 ==> after.samples@[i] == before.samples@[i
                + dropped]
            &&& after.first is None ==> sample.arrivals == 0 && sample.window == 1_000_000_000
            &&& after.first is Some ==> sample.arrivals == after.arrivals@.len() as usize
            &&& after.first is Some && now >= after.first->0 ==> {
                let running = now - after.first->0;
                &&& running <= 1_000_000_000 ==> sample.window == 1_000_000_000
                &&& 1_000_000_000 <= running <= 5_000_000_000 ==> sample.window == running
                &&& running >= 5_000_000_000 ==> sample.window == 5_000_000_000
            }
            &&& sample.stalled <==> after.stall_at(now, outlier) is Some
        },
{
}

} // verus!
