//! What a running recorder says it has taken.

use crate::connection::{elapsed, since};
use vstd::prelude::*;

verus! {

/// How often a running recorder says what it has taken, in nanoseconds
///
/// A minute: long enough not to be noise in a journal, short enough that a
/// silent recorder is a recorder that has stopped rather than one that is
/// merely quiet.
pub const TALLY: u128 = 60_000_000_000;

/// How much a recorder has taken, and when it last said so
#[derive(Clone, Copy, Debug, PartialEq, Eq, Structural)]
pub struct Progress {
    /// How many frames.
    pub taken: u64,
    /// How many bytes in them.
    pub bytes: u64,
    /// When it was last said, on a monotonic clock in nanoseconds.
    pub said: u128,
}

/// What taking a frame of so many bytes comes to.
pub open spec fn takes(before: Progress, len: usize, after: Progress) -> bool {
    after == (Progress {
        taken: (before.taken + 1) as u64,
        bytes: (before.bytes + len) as u64,
        said: before.said,
    })
}

/// What is said of what has been taken, and what is remembered of saying it.
pub open spec fn says(
    before: Progress,
    now: u128,
    totals: Option<(u64, u64)>,
    after: Progress,
) -> bool {
    if since(now, before.said) >= TALLY {
        &&& totals == Some((before.taken, before.bytes))
        &&& after == (Progress { said: now, ..before })
    } else {
        &&& totals is None
        &&& after == before
    }
}

impl Progress {
    /// Nothing taken yet.
    pub open spec fn started(now: u128) -> Progress {
        Progress { taken: 0, bytes: 0, said: now }
    }

    /// Nothing taken yet.
    pub fn new(now: u128) -> (progress: Self)
        ensures
            progress == Progress::started(now),
    {
        Progress { taken: 0, bytes: 0, said: now }
    }

    /// A frame of so many bytes has been taken.
    pub fn take(&mut self, len: usize)
        requires
            old(self).taken < u64::MAX,
            old(self).bytes + len <= u64::MAX,
        ensures
            takes(*old(self), len, *final(self)),
    {
        self.taken = self.taken + 1;
        self.bytes = self.bytes + len as u64;
    }

    /// How many frames and bytes have been taken, where it is time to say so.
    pub fn due(&mut self, now: u128) -> (totals: Option<(u64, u64)>)
        ensures
            says(*old(self), now, totals, *final(self)),
    {
        if elapsed(now, self.said) >= TALLY {
            self.said = now;
            Some((self.taken, self.bytes))
        } else {
            None
        }
    }
}

/// What has been taken after some frames of so many bytes, each taken in turn.
pub open spec fn takes_all(before: Progress, lens: Seq<usize>, after: Progress) -> bool
    decreases lens.len(),
{
    if lens.len() == 0 {
        after == before
    } else {
        exists|between: Progress|
            takes_all(before, lens.drop_last(), between) && #[trigger] takes(
                between,
                lens.last(),
                after,
            )
    }
}

/// How many bytes there are in frames of such lengths.
pub open spec fn bytes_in(lens: Seq<usize>) -> nat
    decreases lens.len(),
{
    if lens.len() == 0 {
        0
    } else {
        bytes_in(lens.drop_last()) + lens.last() as nat
    }
}

/// However many frames are taken, as many are counted, with every byte in them,
/// and taking them says nothing.
pub proof fn every_frame_taken_is_counted(before: Progress, lens: Seq<usize>, after: Progress)
    requires
        takes_all(before, lens, after),
        before.taken + lens.len() <= u64::MAX,
        before.bytes + bytes_in(lens) <= u64::MAX,
    ensures
        after.taken == before.taken + lens.len(),
        after.bytes == before.bytes + bytes_in(lens),
        after.said == before.said,
    decreases lens.len(),
{
    if lens.len() > 0 {
        let between = choose|between: Progress|
            takes_all(before, lens.drop_last(), between) && #[trigger] takes(
                between,
                lens.last(),
                after,
            );
        every_frame_taken_is_counted(before, lens.drop_last(), between);
    }
}

/// The totals are said once a minute has passed since they were, and not
/// before; saying them forgets none of them and starts the minute over.
pub proof fn the_totals_are_said_each_minute(
    before: Progress,
    now: u128,
    totals: Option<(u64, u64)>,
    after: Progress,
)
    requires
        says(before, now, totals, after),
    ensures
        totals is Some <==> now - before.said >= 60_000_000_000,
        totals is Some ==> totals == Some((before.taken, before.bytes)) && after.said == now,
        totals is None ==> after.said == before.said,
        after.taken == before.taken && after.bytes == before.bytes,
{
}

/// A recorder that has just started has taken nothing, and says so once a
/// minute has passed.
pub proof fn a_recorder_starts_from_nothing(
    now: u128,
    later: u128,
    totals: Option<(u64, u64)>,
    after: Progress,
)
    requires
        later >= now,
        says(Progress::started(now), later, totals, after),
    ensures
        later - now >= 60_000_000_000 ==> totals == Some((0u64, 0u64)),
        later - now < 60_000_000_000 ==> totals is None,
{
}

} // verus!
