//! What a run of a recorder leaves on the disk, and what is read of it.
//!
//! The recorder's own steps, followed over the files of a directory that was
//! empty: each frame rolls the segment where the hour has turned and is
//! appended, and a kill at any byte of a record leaves what was written of it
//! for the next recorder to cut away.

use crate::frame::FrameView;
use crate::moment::{
    earlier, epoch_nanos, in_nanosecond_era, moment_at, names_moment, nanoseconds_round_trip,
    spelled, Moment, HOUR_FORMAT,
};
use crate::spool::reader::{
    ahead, ahead_in, end_of, in_feed_order, names, next_of, starts_at, Start,
};
use crate::spool::record::{
    a_cut_record_is_torn, a_record_reads_back, kept_length, readable, record, records, sound,
    whole_length, whole_records_are_read_past, whole_records_stand_alone, Look, HEAD, LARGEST,
};
use crate::spool::recorder::Write;
use crate::spool::replay::{
    a_spool_hands_over_what_lies_ahead, a_spool_read_to_its_end_ends, found_at, from_moment,
    handed_over, is_hourly, lemma_next_segment, lemma_segment_named,
    starting_at_a_moment_misses_nothing_since, steps_ahead,
};
use crate::spool::segment::{hour_reads_back, hour_sorts, opened_at};
use crate::text::{sorting_is_total, sorts_before};
use vstd::prelude::*;

verus! {

/// One thing that befalls a recorder
pub enum Deed {
    /// A frame is written down, unless it is larger than a record may hold.
    Wrote { frame: FrameView },
    /// The recorder is killed with so many bytes of a frame's record on the
    /// disk, and another is started.
    Killed { frame: FrameView, written: nat },
}

impl Deed {
    /// The frame being written.
    pub open spec fn frame(self) -> FrameView {
        match self {
            Deed::Wrote { frame } => frame,
            Deed::Killed { frame, .. } => frame,
        }
    }

    /// The segment the frame belongs to.
    pub open spec fn hour(self) -> Seq<char> {
        spelled(self.frame().received_at, HOUR_FORMAT@)
    }

    /// The hours since the epoch by then.
    pub open spec fn hours(self) -> int {
        self.frame().received_at.0 / 3600
    }

    /// What is appended to the segment.
    pub open spec fn appended(self) -> Seq<u8> {
        let frame = self.frame();
        let whole = record(epoch_nanos(frame.received_at), frame.bytes);
        if frame.bytes.len() > LARGEST {
            Seq::empty()
        } else {
            match self {
                Deed::Wrote { .. } => whole,
                Deed::Killed { written, .. } => whole.take(written as int),
            }
        }
    }

    /// The frames this leaves to be read: the one written, where it was.
    pub open spec fn left(self) -> Seq<FrameView> {
        match self {
            Deed::Wrote { frame } if frame.bytes.len() <= LARGEST => seq![frame],
            _ => Seq::empty(),
        }
    }

    /// Whether the frame was received at a moment, outside any leap second,
    /// that a record can count; and whether a kill came before its record was
    /// whole.
    pub open spec fn is_deed(self) -> bool {
        let at = self.frame().received_at;
        &&& names_moment(at.0, at.1)
        &&& at.1 < 1_000_000_000
        &&& in_nanosecond_era(at)
        &&& match self {
            Deed::Wrote { .. } => true,
            Deed::Killed { frame, written } => written < record(epoch_nanos(at), frame.bytes).len(),
        }
    }
}

/// A directory being recorded to: what each segment's file holds, and the
/// segment the recorder has open.
#[verifier::ext_equal]
pub struct Spooled {
    pub files: Map<Seq<char>, Seq<u8>>,
    pub open: Option<Seq<char>>,
}

impl Spooled {
    /// A directory nothing has been recorded to.
    pub open spec fn fresh() -> Spooled {
        Spooled { files: Map::empty(), open: None }
    }

    /// What a segment's file holds, which is nothing where it is not there.
    pub open spec fn held(self, hour: Seq<char>) -> Seq<u8> {
        if self.files.dom().contains(hour) {
            self.files[hour]
        } else {
            Seq::empty()
        }
    }

    /// The directory after a deed: the segment of the frame's hour is opened
    /// and cut back where it is not the one open, and appended to.
    pub open spec fn after(self, deed: Deed) -> Spooled {
        let hour = deed.hour();
        let held = self.held(hour);
        let kept = if self.open == Some(hour) {
            held
        } else {
            held.take(kept_length(held) as int)
        };
        Spooled {
            files: self.files.insert(hour, kept + deed.appended()),
            open: match deed {
                Deed::Wrote { .. } => Some(hour),
                Deed::Killed { .. } => None,
            },
        }
    }
}

/// What a recorder says to do with a frame is what a run does with it: its
/// segment is opened and cut back to what the recorder keeps of it where the
/// recorder says to roll, and the recorder's bytes are appended.
pub proof fn a_run_does_what_the_recorder_says(
    dir: Spooled,
    write: Write,
    frame: FrameView,
    keep: nat,
)
    requires
        write.takes(dir.open, frame),
        ({
            let hour = Deed::Wrote { frame }.hour();
            write.roll is Some ==> keep == kept_length(dir.held(hour))
        }),
    ensures
        ({
            let hour = Deed::Wrote { frame }.hour();
            let held = dir.held(hour);
            let kept = if write.roll is Some {
                held.take(keep as int)
            } else {
                held
            };
            let added = match write.record {
                Ok(bytes) => bytes@,
                Err(_) => Seq::empty(),
            };
            dir.after(Deed::Wrote { frame }) == Spooled {
                files: dir.files.insert(hour, kept + added),
                open: Some(hour),
            }
        }),
{
}

/// A directory that was empty, after a run of deeds.
pub open spec fn spooled(deeds: Seq<Deed>) -> Spooled
    decreases deeds.len(),
{
    if deeds.len() == 0 {
        Spooled::fresh()
    } else {
        spooled(deeds.drop_last()).after(deeds.last())
    }
}

/// The frames a run of deeds leaves to be read, in the order they were written.
pub open spec fn left_by(deeds: Seq<Deed>) -> Seq<FrameView>
    decreases deeds.len(),
{
    if deeds.len() == 0 {
        Seq::empty()
    } else {
        left_by(deeds.drop_last()) + deeds.last().left()
    }
}

/// Frames as their records hold them.
pub open spec fn as_records(frames: Seq<FrameView>) -> Seq<(int, Seq<u8>)> {
    Seq::new(frames.len(), |i: int| (epoch_nanos(frames[i].received_at), frames[i].bytes))
}

/// Records as the frames a reader hands over.
pub open spec fn as_frames(taken: Seq<(int, Seq<u8>)>) -> Seq<FrameView> {
    Seq::new(
        taken.len(),
        |i: int| FrameView { received_at: moment_at(taken[i].0), bytes: taken[i].1 },
    )
}

/// Whether a run's clock never runs back into an hour before, and the names of
/// its hours sort as the hours do, which a recorder says of each frame it
/// writes.
pub open spec fn runs_forward(deeds: Seq<Deed>) -> bool {
    &&& forall|i: int|
        0 <= i < deeds.len() ==> (#[trigger] deeds[i]).is_deed() && hour_sorts(
            deeds[i].frame().received_at,
        )
    &&& forall|i: int, j: int|
        0 <= i < j < deeds.len() ==> (#[trigger] deeds[i]).hours() <= (#[trigger] deeds[j]).hours()
}

/// Whether segments are the files of a directory, each once.
pub open spec fn lists(held: Seq<(Seq<char>, Seq<u8>)>, files: Map<Seq<char>, Seq<u8>>) -> bool {
    &&& forall|k: int|
        0 <= k < held.len() ==> files.dom().contains((#[trigger] held[k]).0) && files[held[k].0]
            == held[k].1
    &&& forall|name: Seq<char>| #[trigger]
        files.dom().contains(name) ==> names(held).contains(name)
}

/// What a deed appends is read, after whole records, as the frames it leaves.
proof fn lemma_appended(deed: Deed)
    requires
        deed.is_deed(),
    ensures
        records(deed.appended()) == as_records(deed.left()),
        sound(deed.appended()),
        deed is Wrote ==> whole_length(deed.appended()) == deed.appended().len(),
{
    let frame = deed.frame();
    let pair = (epoch_nanos(frame.received_at), frame.bytes);
    let none = Seq::<u8>::empty();
    assert(records(none) == Seq::<(int, Seq<u8>)>::empty());
    assert(sound(none) && whole_length(none) == 0);
    if frame.bytes.len() > LARGEST {
        assert(records(none) == as_records(deed.left()));
    } else {
        assert(readable(pair));
        let whole = record(pair.0, pair.1);
        match deed {
            Deed::Wrote { .. } => {
                a_record_reads_back(pair, none);
                assert(whole + none == whole);
                assert(whole.skip(whole.len() as int) == none);
                assert(records(whole) == seq![pair] + records(none));
                assert(records(whole) == as_records(deed.left()));
            },
            Deed::Killed { written, .. } => {
                a_cut_record_is_torn(pair, written as int);
                assert(records(whole.take(written as int)) == as_records(deed.left()));
            },
        }
    }
}

/// What is known of a run's directory, listed oldest first.
#[verifier::opaque]
spec fn run_holds(deeds: Seq<Deed>, held: Seq<(Seq<char>, Seq<u8>)>) -> bool {
    let dir = spooled(deeds);
    &&& lists(held, dir.files)
    &&& in_feed_order(held)
    &&& forall|k: int| 0 <= k < held.len() ==> sound((#[trigger] held[k]).1)
    &&& forall|k: int|
        0 <= k < held.len() ==> exists|i: int|
            0 <= i < deeds.len() && (#[trigger] deeds[i]).hour() == (#[trigger] held[k]).0
    &&& forall|i: int| 0 <= i < deeds.len() ==> names(held).contains((#[trigger] deeds[i]).hour())
    &&& dir.open is Some ==> {
        &&& held.len() > 0
        &&& dir.open == Some(held.last().0)
        &&& whole_length(held.last().1) == held.last().1.len()
    }
    &&& ahead(held, None) == as_records(left_by(deeds))
}

proof fn lemma_hours_sort(one: Deed, other: Deed)
    requires
        one.is_deed(),
        other.is_deed(),
        hour_sorts(one.frame().received_at),
        hour_sorts(other.frame().received_at),
        one.hours() <= other.hours(),
    ensures
        one.hours() == other.hours() ==> one.hour() == other.hour(),
        one.hours() < other.hours() ==> sorts_before(one.hour(), other.hour()),
{
    sorting_is_total(one.hour(), other.hour());
}

proof fn lemma_run(deeds: Seq<Deed>) -> (held: Seq<(Seq<char>, Seq<u8>)>)
    requires
        runs_forward(deeds),
    ensures
        run_holds(deeds, held),
    decreases deeds.len(), 1int,
{
    reveal(run_holds);
    if deeds.len() == 0 {
        let none = Seq::<(Seq<char>, Seq<u8>)>::empty();
        assert(ahead(none, None) == as_records(left_by(deeds)));
        none
    } else {
        let had = lemma_run_before(deeds);
        lemma_step(deeds, had);
        next_listed(had, deeds)
    }
}

/// The listing before the last deed of a run, in which no segment comes after
/// that deed's hour.
proof fn lemma_run_before(deeds: Seq<Deed>) -> (had: Seq<(Seq<char>, Seq<u8>)>)
    requires
        deeds.len() > 0,
        runs_forward(deeds),
    ensures
        runs_forward(deeds.drop_last()),
        run_holds(deeds.drop_last(), had),
        deeds.last().is_deed(),
        forall|k: int|
            0 <= k < had.len() ==> (#[trigger] had[k]).0 == deeds.last().hour() || sorts_before(
                had[k].0,
                deeds.last().hour(),
            ),
    decreases deeds.len(), 0int,
{
    reveal(run_holds);
    let before = deeds.drop_last();
    let deed = deeds.last();
    assert(deed == deeds[deeds.len() - 1]);
    assert(runs_forward(before)) by {
        assert forall|i: int| 0 <= i < before.len() implies (#[trigger] before[i]).is_deed()
            && hour_sorts(before[i].frame().received_at) by {
            assert(before[i] == deeds[i]);
        }
        assert forall|i: int, j: int| 0 <= i < j < before.len() implies (
        #[trigger] before[i]).hours() <= (#[trigger] before[j]).hours() by {
            assert(before[i] == deeds[i] && before[j] == deeds[j]);
        }
    }
    let had = lemma_run(before);
    assert forall|k: int| 0 <= k < had.len() implies (#[trigger] had[k]).0 == deed.hour()
        || sorts_before(had[k].0, deed.hour()) by {
        let i = choose|i: int| 0 <= i < before.len() && (#[trigger] before[i]).hour() == had[k].0;
        assert(before[i] == deeds[i]);
        lemma_hours_sort(deeds[i], deed);
    }
    had
}

/// The segments older than the one a deed writes to.
spec fn older_than(had: Seq<(Seq<char>, Seq<u8>)>, hour: Seq<char>) -> Seq<(Seq<char>, Seq<u8>)> {
    if had.len() > 0 && had.last().0 == hour {
        had.drop_last()
    } else {
        had
    }
}

/// The listing after the last deed of a run, from the one before it.
spec fn next_listed(had: Seq<(Seq<char>, Seq<u8>)>, deeds: Seq<Deed>) -> Seq<
    (Seq<char>, Seq<u8>),
> {
    let hour = deeds.last().hour();
    older_than(had, hour).push((hour, spooled(deeds).files[hour]))
}

/// What the segment that the last deed of a run writes to held before it, and
/// holds after.
proof fn lemma_step_bytes(deeds: Seq<Deed>, had: Seq<(Seq<char>, Seq<u8>)>)
    requires
        deeds.len() > 0,
        deeds.last().is_deed(),
        run_holds(deeds.drop_last(), had),
        forall|k: int|
            0 <= k < had.len() ==> (#[trigger] had[k]).0 == deeds.last().hour() || sorts_before(
                had[k].0,
                deeds.last().hour(),
            ),
    ensures
        ({
            let hour = deeds.last().hour();
            let files = spooled(deeds.drop_last()).files;
            let again = had.len() > 0 && had.last().0 == hour;
            let bytes = spooled(deeds.drop_last()).held(hour);
            let now = bytes.take(whole_length(bytes) as int) + deeds.last().appended();
            &&& bytes == if again {
                had.last().1
            } else {
                Seq::empty()
            }
            &&& files.dom().contains(hour) ==> again
            &&& sound(bytes)
            &&& spooled(deeds).files == files.insert(hour, now)
            &&& sound(now)
            &&& records(now) == records(bytes) + as_records(deeds.last().left())
            &&& deeds.last() is Wrote ==> whole_length(now) == now.len()
            &&& !again ==> records(bytes) == Seq::<(int, Seq<u8>)>::empty()
        }),
{
    let deed = deeds.last();
    let hour = deed.hour();
    let dir = spooled(deeds.drop_last());
    let again = had.len() > 0 && had.last().0 == hour;
    let bytes = dir.held(hour);
    assert(lists(had, dir.files) && in_feed_order(had) && (again ==> sound(had.last().1)) && (
    dir.open == Some(hour) ==> again && whole_length(bytes) == bytes.len())) by {
        reveal(run_holds);
        if had.len() > 0 {
            assert(had[had.len() - 1] == had.last());
        }
    }
    if again {
        assert(had[had.len() - 1] == had.last());
    } else {
        assert(!dir.files.dom().contains(hour)) by {
            if dir.files.dom().contains(hour) {
                assert(names(had).contains(hour));
                let k = choose|k: int| 0 <= k < names(had).len() && names(had)[k] == hour;
                assert(had[k].0 == hour);
                assert(had[had.len() - 1] == had.last());
                sorting_is_total(hour, had.last().0);
            }
        }
        assert(sound(bytes) && whole_length(bytes) == 0);
        assert(records(bytes) == Seq::<(int, Seq<u8>)>::empty());
    }
    whole_records_stand_alone(bytes);
    let kept = bytes.take(whole_length(bytes) as int);
    assert(dir.open == Some(hour) ==> kept == bytes);
    lemma_appended(deed);
    whole_records_are_read_past(kept, deed.appended());
}

/// A directory is listed in feed order still once its newest segment, or a
/// newer one, has been written to.
proof fn lemma_step_lists(
    had: Seq<(Seq<char>, Seq<u8>)>,
    files: Map<Seq<char>, Seq<u8>>,
    hour: Seq<char>,
    now: Seq<u8>,
)
    requires
        lists(had, files),
        in_feed_order(had),
        forall|k: int|
            0 <= k < had.len() ==> (#[trigger] had[k]).0 == hour || sorts_before(had[k].0, hour),
        files.dom().contains(hour) ==> had.len() > 0 && had.last().0 == hour,
    ensures
        lists(older_than(had, hour).push((hour, now)), files.insert(hour, now)),
        in_feed_order(older_than(had, hour).push((hour, now))),
{
    let older = older_than(had, hour);
    let again = had.len() > 0 && had.last().0 == hour;
    let held = older.push((hour, now));
    let next = files.insert(hour, now);
    assert forall|k: int| 0 <= k < older.len() implies sorts_before(
        (#[trigger] older[k]).0,
        hour,
    ) by {
        assert(older[k] == had[k]);
        if again {
            assert(had[had.len() - 1] == had.last());
            assert(sorts_before(had[k].0, had[had.len() - 1].0));
        } else if had[k].0 == hour {
            assert(files.dom().contains(hour));
        }
    }
    assert forall|k: int| 0 <= k < held.len() implies next.dom().contains((#[trigger] held[k]).0)
        && next[held[k].0] == held[k].1 by {
        if k < older.len() {
            assert(held[k] == older[k] && held[k] == had[k]);
            sorting_is_total(held[k].0, hour);
        }
    }
    assert forall|name: Seq<char>| #[trigger] next.dom().contains(name) implies names(
        held,
    ).contains(name) by {
        if name == hour {
            assert(names(held)[held.len() - 1] == hour);
        } else {
            assert(files.dom().contains(name));
            let k = choose|k: int| 0 <= k < names(had).len() && names(had)[k] == name;
            assert(had[k].0 == name);
            assert(names(held)[k] == name);
        }
    }
    assert forall|i: int, j: int| 0 <= i < j < held.len() implies sorts_before(
        (#[trigger] held[i]).0,
        (#[trigger] held[j]).0,
    ) by {
        assert(held[i] == older[i] && held[i] == had[i]);
        if j < older.len() {
            assert(held[j] == had[j]);
        }
    }
}

/// The segments listed are those of the hours of the deeds.
proof fn lemma_step_hours(
    deeds: Seq<Deed>,
    had: Seq<(Seq<char>, Seq<u8>)>,
    held: Seq<(Seq<char>, Seq<u8>)>,
    now: Seq<u8>,
)
    requires
        deeds.len() > 0,
        held == older_than(had, deeds.last().hour()).push((deeds.last().hour(), now)),
        run_holds(deeds.drop_last(), had),
    ensures
        forall|k: int|
            0 <= k < held.len() ==> exists|i: int|
                0 <= i < deeds.len() && (#[trigger] deeds[i]).hour() == (#[trigger] held[k]).0,
        forall|i: int| 0 <= i < deeds.len() ==> names(held).contains((#[trigger] deeds[i]).hour()),
{
    let before = deeds.drop_last();
    let hour = deeds.last().hour();
    let older = older_than(had, hour);
    assert forall|k: int| 0 <= k < held.len() implies exists|i: int|
        0 <= i < deeds.len() && (#[trigger] deeds[i]).hour() == (#[trigger] held[k]).0 by {
        if k < older.len() {
            assert(held[k] == had[k]);
            assert(exists|i: int|
                0 <= i < before.len() && (#[trigger] before[i]).hour() == had[k].0) by {
                reveal(run_holds);
            }
            let i = choose|i: int|
                0 <= i < before.len() && (#[trigger] before[i]).hour() == had[k].0;
            assert(deeds[i] == before[i]);
        } else {
            assert(deeds[deeds.len() - 1].hour() == held[k].0);
        }
    }
    assert forall|i: int| 0 <= i < deeds.len() implies names(held).contains(
        (#[trigger] deeds[i]).hour(),
    ) by {
        assert(names(held)[held.len() - 1] == hour);
        if i < before.len() {
            let name = before[i].hour();
            assert(names(had).contains(name)) by {
                reveal(run_holds);
            }
            let k = choose|k: int| 0 <= k < names(had).len() && names(had)[k] == name;
            assert(had[k].0 == name);
            assert(before[i] == deeds[i]);
            if k < older.len() {
                assert(names(held)[k] == name);
            }
        }
    }
}

proof fn lemma_step(deeds: Seq<Deed>, had: Seq<(Seq<char>, Seq<u8>)>)
    requires
        deeds.len() > 0,
        deeds.last().is_deed(),
        run_holds(deeds.drop_last(), had),
        forall|k: int|
            0 <= k < had.len() ==> (#[trigger] had[k]).0 == deeds.last().hour() || sorts_before(
                had[k].0,
                deeds.last().hour(),
            ),
    ensures
        run_holds(deeds, next_listed(had, deeds)),
        ({
            let hour = deeds.last().hour();
            let again = had.len() > 0 && had.last().0 == hour;
            let bytes = spooled(deeds.drop_last()).held(hour);
            let kept = bytes.take(whole_length(bytes) as int);
            &&& bytes == if again {
                had.last().1
            } else {
                Seq::empty()
            }
            &&& sound(bytes)
            &&& spooled(deeds).files[hour] == kept + deeds.last().appended()
        }),
{
    let before = deeds.drop_last();
    let deed = deeds.last();
    let hour = deed.hour();
    let dir = spooled(before);
    let again = had.len() > 0 && had.last().0 == hour;
    let older = older_than(had, hour);
    let bytes = dir.held(hour);
    let now = bytes.take(whole_length(bytes) as int) + deed.appended();
    let held = older.push((hour, now));
    lemma_step_bytes(deeds, had);
    assert(lists(had, dir.files) && in_feed_order(had)) by {
        reveal(run_holds);
    }
    lemma_step_lists(had, dir.files, hour, now);
    lemma_step_hours(deeds, had, held, now);
    assert forall|k: int| 0 <= k < held.len() implies sound((#[trigger] held[k]).1) by {
        if k < older.len() {
            assert(held[k] == had[k]);
            reveal(run_holds);
        }
    }
    assert(ahead(held, None) == as_records(left_by(deeds))) by {
        assert(ahead(had, None) == as_records(left_by(before))) by {
            reveal(run_holds);
        }
        lemma_ahead_in_push(older, (hour, now), None);
        if again {
            lemma_ahead_in_push(older, had.last(), None);
            assert(older.push(had.last()) == had);
        }
        assert(as_records(left_by(deeds)) == as_records(left_by(before)) + as_records(
            deed.left(),
        ));
    }
    assert(next_listed(had, deeds) == held);
    reveal(run_holds);
}

/// What is recorded is what is read. However many hours a feed runs over, and
/// wherever the recorder is killed and started again, the directory holds one
/// segment for each hour in which a frame arrived, and a reader from the oldest
/// on hands over every frame that was written, once, as it arrived and in the
/// order it did, and then reaches the end.
///
/// A frame larger than a record may hold is refused and so not among them, nor
/// is one the recorder was killed in the middle of. What comes back is the
/// directory listed oldest first, which it can be in one way only.
pub proof fn a_feed_recorded_over_hours_reads_back(deeds: Seq<Deed>) -> (held: Seq<
    (Seq<char>, Seq<u8>),
>)
    requires
        runs_forward(deeds),
        forall|name: Seq<char>| #[trigger]
            spooled(deeds).files.dom().contains(name) ==> spooled(deeds).files[name].len()
                <= u64::MAX,
    ensures
        lists(held, spooled(deeds).files),
        in_feed_order(held),
        forall|name: Seq<char>| #[trigger]
            names(held).contains(name) <==> exists|i: int|
                0 <= i < deeds.len() && (#[trigger] deeds[i]).hour() == name,
        ahead(held, None) == as_records(left_by(deeds)),
        handed_over(held, None, None, steps_ahead(held, None)) is Some,
        as_frames(handed_over(held, None, None, steps_ahead(held, None))->0) == left_by(deeds),
{
    reveal(run_holds);
    let held = lemma_run(deeds);
    assert forall|k: int| 0 <= k < held.len() implies (#[trigger] held[k]).1.len() <= u64::MAX by {
        assert(spooled(deeds).files.dom().contains(held[k].0));
    }
    assert forall|name: Seq<char>| #[trigger] names(held).contains(name) implies exists|i: int|
        0 <= i < deeds.len() && (#[trigger] deeds[i]).hour() == name by {
        let k = choose|k: int| 0 <= k < names(held).len() && names(held)[k] == name;
        assert(held[k].0 == name);
    }
    a_spool_read_to_its_end_ends(held, None, None);
    a_spool_hands_over_what_lies_ahead(held, None, None, steps_ahead(held, None));
    assert(from_moment(ahead(held, None), None) == ahead(held, None));
    lemma_left_in_time(deeds);
    let frames = left_by(deeds);
    assert forall|i: int| 0 <= i < frames.len() implies as_frames(as_records(frames))[i]
        == #[trigger] frames[i] by {
        nanoseconds_round_trip(frames[i].received_at);
    }
    assert(as_frames(as_records(frames)) == frames);
    held
}

/// Whether a position is one a reader can stop at: before anything is
/// recorded, or in a segment that is held, between two of its records.
pub open spec fn stands(
    held: Seq<(Seq<char>, Seq<u8>)>,
    at: Option<(Seq<char>, u64)>,
) -> bool {
    match at {
        None => true,
        Some((name, offset)) => {
            &&& name.len() == 0 || names(held).contains(name)
            &&& forall|k: int|
                0 <= k < held.len() && (#[trigger] held[k]).0 == name ==> offset <= whole_length(
                    held[k].1,
                ) && whole_length(held[k].1.skip(offset as int)) == whole_length(held[k].1)
                    - offset
        },
    }
}

/// Where a position stands to the segment a deed writes to: in it, and then it
/// is the last one held, or before it.
proof fn lemma_standing(
    had: Seq<(Seq<char>, Seq<u8>)>,
    hour: Seq<char>,
    name: Seq<char>,
    offset: u64,
)
    requires
        hour.len() > 0,
        in_feed_order(had),
        forall|k: int|
            0 <= k < had.len() ==> (#[trigger] had[k]).0 == hour || sorts_before(had[k].0, hour),
        stands(had, Some((name, offset))),
    ensures
        name == hour ==> had.len() > 0 && had.last().0 == hour && offset <= whole_length(
            had.last().1,
        ) && whole_length(had.last().1.skip(offset as int)) == whole_length(had.last().1) - offset,
        name != hour ==> sorts_before(name, hour),
{
    if name.len() > 0 {
        let k = choose|k: int| 0 <= k < names(had).len() && names(had)[k] == name;
        assert(had[k].0 == name);
        if name == hour {
            let last = had[had.len() - 1];
            assert(last == had.last());
            if k < had.len() - 1 {
                assert(sorts_before(had[k].0, last.0));
                sorting_is_total(hour, last.0);
            }
        }
    }
}

/// What is appended to a segment once it is cut back lies ahead of a position
/// before it, after what lay ahead there.
proof fn lemma_segment_grows(
    hour: Seq<char>,
    bytes: Seq<u8>,
    more: Seq<u8>,
    at: Option<(Seq<char>, u64)>,
)
    requires
        match at {
            None => true,
            Some((name, offset)) => if name == hour {
                &&& offset <= whole_length(bytes)
                &&& whole_length(bytes.skip(offset as int)) == whole_length(bytes) - offset
            } else {
                sorts_before(name, hour)
            },
        },
    ensures
        ({
            let now = bytes.take(whole_length(bytes) as int) + more;
            &&& ahead_in((hour, now), at) == ahead_in((hour, bytes), at) + records(more)
            &&& at is Some && at.unwrap().0 == hour ==> at.unwrap().1 <= whole_length(now)
                && whole_length(now.skip(at.unwrap().1 as int)) == whole_length(now)
                - at.unwrap().1
        }),
{
    let kept = bytes.take(whole_length(bytes) as int);
    let now = kept + more;
    whole_records_stand_alone(bytes);
    whole_records_are_read_past(kept, more);
    if at is Some && at.unwrap().0 == hour {
        let offset = at.unwrap().1 as int;
        lemma_cut_between(bytes, offset);
        whole_records_are_read_past(kept.skip(offset), more);
        assert(now.skip(offset) == kept.skip(offset) + more);
    }
}

proof fn lemma_follow(
    deeds: Seq<Deed>,
    had: Seq<(Seq<char>, Seq<u8>)>,
    at: Option<(Seq<char>, u64)>,
)
    requires
        deeds.len() > 0,
        runs_forward(deeds),
        run_holds(deeds.drop_last(), had),
        forall|k: int|
            0 <= k < had.len() ==> (#[trigger] had[k]).0 == deeds.last().hour() || sorts_before(
                had[k].0,
                deeds.last().hour(),
            ),
        stands(had, at),
    ensures
        run_holds(deeds, next_listed(had, deeds)),
        stands(next_listed(had, deeds), at),
        ahead(next_listed(had, deeds), at) == ahead(had, at) + as_records(deeds.last().left()),
{
    assert(in_feed_order(had)) by {
        reveal(run_holds);
    }
    let deed = deeds[deeds.len() - 1];
    assert(deed == deeds.last() && deed.is_deed() && hour_sorts(deed.frame().received_at));
    let hour = deed.hour();
    assert(hour.len() == 10);
    lemma_step(deeds, had);
    lemma_appended(deed);
    let next = next_listed(had, deeds);
    let older = older_than(had, hour);
    let again = had.len() > 0 && had.last().0 == hour;
    let bytes = spooled(deeds.drop_last()).held(hour);
    if let Some((name, offset)) = at {
        lemma_standing(had, hour, name, offset);
    }
    lemma_segment_grows(hour, bytes, deed.appended(), at);
    let now = bytes.take(whole_length(bytes) as int) + deed.appended();
    assert(next == older.push((hour, now)));
    lemma_ahead_in_push(older, (hour, now), at);
    if again {
        assert(had == older.push((hour, bytes)));
        lemma_ahead_in_push(older, (hour, bytes), at);
    } else {
        assert(records(bytes) == Seq::<(int, Seq<u8>)>::empty());
        assert(ahead_in((hour, bytes), at) == Seq::<(int, Seq<u8>)>::empty());
    }
    assert(ahead(next, at) == ahead(had, at) + as_records(deed.left()));
    if let Some((name, offset)) = at {
        lemma_still_stands(older, had, (hour, now), name, offset);
    }
}

proof fn lemma_still_stands(
    older: Seq<(Seq<char>, Seq<u8>)>,
    had: Seq<(Seq<char>, Seq<u8>)>,
    last: (Seq<char>, Seq<u8>),
    name: Seq<char>,
    offset: u64,
)
    requires
        older == older_than(had, last.0),
        stands(had, Some((name, offset))),
        name == last.0 ==> offset <= whole_length(last.1) && whole_length(
            last.1.skip(offset as int),
        ) == whole_length(last.1) - offset,
    ensures
        stands(older.push(last), Some((name, offset))),
{
    let next = older.push(last);
    if name.len() > 0 {
        let k = choose|k: int| 0 <= k < names(had).len() && names(had)[k] == name;
        assert(had[k].0 == name);
        if k < older.len() {
            assert(names(next)[k] == name);
        } else {
            assert(had[k] == had.last());
            assert(names(next)[next.len() - 1] == name);
        }
    }
    assert forall|k: int| 0 <= k < next.len() && (#[trigger] next[k]).0 == name implies offset
        <= whole_length(next[k].1) && whole_length(next[k].1.skip(offset as int)) == whole_length(
        next[k].1,
    ) - offset by {
        if k < older.len() {
            assert(next[k] == had[k]);
        }
    }
}

proof fn lemma_ahead_in_push(
    held: Seq<(Seq<char>, Seq<u8>)>,
    last: (Seq<char>, Seq<u8>),
    at: Option<(Seq<char>, u64)>,
)
    ensures
        ahead(held.push(last), at) == ahead(held, at) + ahead_in(last, at),
    decreases held.len(),
{
    let all = held.push(last);
    if held.len() == 0 {
        assert(all.skip(1) == Seq::<(Seq<char>, Seq<u8>)>::empty());
        assert(ahead(all.skip(1), at) == Seq::<(int, Seq<u8>)>::empty());
        assert(ahead(all, at) == ahead_in(last, at) + ahead(all.skip(1), at));
        assert(ahead(all, at) == ahead(held, at) + ahead_in(last, at));
    } else {
        assert(all.skip(1) == held.skip(1).push(last));
        lemma_ahead_in_push(held.skip(1), last, at);
        assert(ahead(all, at) == ahead(held, at) + ahead_in(last, at));
    }
}

/// Between two records of a segment, the whole records on from there are those
/// of the segment's whole records.
proof fn lemma_cut_between(bytes: Seq<u8>, offset: int)
    requires
        0 <= offset <= whole_length(bytes),
        whole_length(bytes.skip(offset)) == whole_length(bytes) - offset,
    ensures
        ({
            let kept = bytes.take(whole_length(bytes) as int);
            &&& whole_length(kept.skip(offset)) == kept.skip(offset).len()
            &&& records(kept.skip(offset)) == records(bytes.skip(offset))
        }),
{
    let kept = bytes.take(whole_length(bytes) as int);
    let rest = bytes.skip(offset);
    whole_records_stand_alone(bytes);
    whole_records_stand_alone(rest);
    assert(kept.skip(offset) == rest.take(whole_length(rest) as int));
}

/// A reader only ever stops between two records: it starts at the front of a
/// segment, or where the whole records of the newest end, and each step takes
/// it past a whole record or to the front of the next segment.
pub proof fn a_reader_stops_between_records(
    held: Seq<(Seq<char>, Seq<u8>)>,
    at: Option<(Seq<char>, u64)>,
    last_len: u64,
)
    requires
        in_feed_order(held),
        forall|k: int|
            0 <= k < held.len() ==> (#[trigger] held[k]).1.len() <= u64::MAX && sound(held[k].1),
        stands(held, at),
        held.len() > 0 ==> last_len == kept_length(held.last().1),
    ensures
        match found_at(held, at) {
            Look::Whole { nanos, bytes } => stands(
                held,
                Some((at.unwrap().0, (at.unwrap().1 + HEAD + bytes.len()) as u64)),
            ),
            _ => match next_of(names(held), at) {
                Some(name) => stands(held, Some((name, 0u64))),
                None => true,
            },
        },
        stands(held, Some(end_of(names(held), last_len))),
{
    match found_at(held, at) {
        Look::Whole { nanos, bytes } => {
            let (name, offset) = at.unwrap();
            let i = lemma_segment_named(held, name);
            let tail = held[i].1;
            let past = offset + HEAD + bytes.len();
            assert(names(held)[i] == name);
            whole_records_stand_alone(tail);
            assert(tail.skip(offset as int).skip(HEAD + bytes.len()) == tail.skip(past));
        },
        _ => {
            lemma_next_segment(names(held), at);
            if let Some(name) = next_of(names(held), at) {
                assert forall|k: int|
                    0 <= k < held.len() && (#[trigger] held[k]).0 == name implies whole_length(
                    held[k].1.skip(0),
                ) == whole_length(held[k].1) by {
                    assert(held[k].1.skip(0) == held[k].1);
                }
            }
        },
    }
    if held.len() > 0 {
        let last = held[held.len() - 1];
        assert(last == held.last() && names(held).last() == last.0);
        assert(names(held)[held.len() - 1] == last.0);
        whole_records_stand_alone(last.1);
        assert forall|k: int| 0 <= k < held.len() && (#[trigger] held[k]).0 == last.0 implies held[k]
            == last by {
            if k < held.len() - 1 {
                sorting_is_total(held[k].0, last.0);
            }
        }
    }
}

/// A reader that stopped between two records, or before there were any, finds
/// ahead of it what it had ahead of it then and every frame written since, in
/// order, whatever hours have turned and however often the recorder was killed
/// and started again: nothing is lost to it and nothing is told it twice.
pub proof fn a_follower_misses_nothing(
    deeds: Seq<Deed>,
    more: Seq<Deed>,
    held: Seq<(Seq<char>, Seq<u8>)>,
    later: Seq<(Seq<char>, Seq<u8>)>,
    at: Option<(Seq<char>, u64)>,
)
    requires
        runs_forward(deeds + more),
        lists(held, spooled(deeds).files),
        in_feed_order(held),
        lists(later, spooled(deeds + more).files),
        in_feed_order(later),
        stands(held, at),
    ensures
        ahead(later, at) == ahead(held, at) + as_records(left_by(more)),
        stands(later, at),
    decreases more.len(),
{
    reveal(run_holds);
    let all = deeds + more;
    if more.len() == 0 {
        assert(all == deeds);
        a_directory_lists_one_way(held, later, spooled(deeds).files);
        assert(as_records(left_by(more)) == Seq::<(int, Seq<u8>)>::empty());
        assert(ahead(later, at) == ahead(held, at) + as_records(left_by(more)));
    } else {
        let fewer = more.drop_last();
        assert(all.drop_last() == deeds + fewer);
        assert(all.last() == more.last());
        let had = lemma_run_before(all);
        a_follower_misses_nothing(deeds, fewer, held, had, at);
        lemma_follow(all, had, at);
        a_directory_lists_one_way(next_listed(had, all), later, spooled(all).files);
        assert(as_records(left_by(more)) == as_records(left_by(fewer)) + as_records(
            more.last().left(),
        ));
        assert(ahead(later, at) == ahead(held, at) + as_records(left_by(more)));
    }
}

/// Whether a record was written by one of some deeds in the hour a segment is
/// named for.
spec fn of_its_hour(deeds: Seq<Deed>, name: Seq<char>, taken: (int, Seq<u8>)) -> bool {
    exists|i: int|
        0 <= i < deeds.len() && (#[trigger] deeds[i]).hour() == name && moment_at(taken.0)
            == deeds[i].frame().received_at
}

proof fn lemma_still_of_its_hour(deeds: Seq<Deed>, name: Seq<char>, taken: (int, Seq<u8>))
    requires
        deeds.len() > 0,
        of_its_hour(deeds.drop_last(), name, taken),
    ensures
        of_its_hour(deeds, name, taken),
{
    let before = deeds.drop_last();
    let i = choose|i: int|
        0 <= i < before.len() && (#[trigger] before[i]).hour() == name && moment_at(taken.0)
            == before[i].frame().received_at;
    assert(deeds[i] == before[i]);
}

proof fn lemma_appended_of_its_hour(deeds: Seq<Deed>, bytes: Seq<u8>)
    requires
        deeds.len() > 0,
        deeds.last().is_deed(),
        forall|r: int|
            0 <= r < records(bytes).len() ==> of_its_hour(
                deeds.drop_last(),
                deeds.last().hour(),
                #[trigger] records(bytes)[r],
            ),
    ensures
        ({
            let now = bytes.take(whole_length(bytes) as int) + deeds.last().appended();
            forall|r: int|
                0 <= r < records(now).len() ==> of_its_hour(
                    deeds,
                    deeds.last().hour(),
                    #[trigger] records(now)[r],
                )
        }),
{
    let deed = deeds[deeds.len() - 1];
    let now = bytes.take(whole_length(bytes) as int) + deed.appended();
    lemma_appended(deed);
    whole_records_stand_alone(bytes);
    whole_records_are_read_past(bytes.take(whole_length(bytes) as int), deed.appended());
    let added = as_records(deed.left());
    assert(records(now) == records(bytes) + added);
    assert forall|r: int| 0 <= r < records(now).len() implies of_its_hour(
        deeds,
        deed.hour(),
        #[trigger] records(now)[r],
    ) by {
        if r < records(bytes).len() {
            assert(records(now)[r] == records(bytes)[r]);
            lemma_still_of_its_hour(deeds, deed.hour(), records(bytes)[r]);
        } else {
            assert(records(now)[r] == added[r - records(bytes).len()]);
            nanoseconds_round_trip(deed.frame().received_at);
            assert(deeds[deeds.len() - 1].hour() == deed.hour());
        }
    }
}

proof fn lemma_records_of_their_hour(deeds: Seq<Deed>, held: Seq<(Seq<char>, Seq<u8>)>)
    requires
        runs_forward(deeds),
        run_holds(deeds, held),
    ensures
        forall|k: int, r: int|
            0 <= k < held.len() && 0 <= r < records(held[k].1).len() ==> of_its_hour(
                deeds,
                held[k].0,
                #[trigger] records(held[k].1)[r],
            ),
    decreases deeds.len(),
{
    reveal(run_holds);
    if deeds.len() == 0 {
        if held.len() > 0 {
            assert(spooled(deeds).files.dom().contains(held[0].0));
        }
    } else {
        let before = deeds.drop_last();
        let had = lemma_run_before(deeds);
        lemma_step(deeds, had);
        a_directory_lists_one_way(held, next_listed(had, deeds), spooled(deeds).files);
        lemma_records_of_their_hour(before, had);
        let hour = deeds.last().hour();
        let older = older_than(had, hour);
        let bytes = spooled(before).held(hour);
        assert forall|r: int| 0 <= r < records(bytes).len() implies of_its_hour(
            before,
            hour,
            #[trigger] records(bytes)[r],
        ) by {
            assert(records(had[had.len() - 1].1)[r] == records(bytes)[r]);
        }
        lemma_appended_of_its_hour(deeds, bytes);
        assert forall|k: int, r: int|
            0 <= k < held.len() && 0 <= r < records(held[k].1).len() implies of_its_hour(
            deeds,
            held[k].0,
            #[trigger] records(held[k].1)[r],
        ) by {
            if k < older.len() {
                assert(held[k] == had[k]);
                lemma_still_of_its_hour(deeds, had[k].0, records(had[k].1)[r]);
            }
        }
    }
}

/// A recorder whose clock runs forward leaves its segments hour by hour, so a
/// reader started at a moment hands over what one that read every segment from
/// the oldest on would, told to start at that moment: the frames written, from
/// the first received at or after it.
pub proof fn a_recorded_feed_is_read_from_a_moment_on(
    deeds: Seq<Deed>,
    held: Seq<(Seq<char>, Seq<u8>)>,
    moment: Moment,
    cursor: Option<(Seq<char>, u64)>,
    last_len: u64,
)
    requires
        runs_forward(deeds),
        forall|i: int|
            0 <= i < deeds.len() ==> hour_reads_back((#[trigger] deeds[i]).frame().received_at),
        lists(held, spooled(deeds).files),
        in_feed_order(held),
    ensures
        is_hourly(held),
        from_moment(
            ahead(held, starts_at(names(held), Start::Since(moment), cursor, last_len)),
            Some(moment@),
        ) == from_moment(as_records(left_by(deeds)), Some(moment@)),
{
    reveal(run_holds);
    let listed = lemma_run(deeds);
    a_directory_lists_one_way(held, listed, spooled(deeds).files);
    lemma_records_of_their_hour(deeds, held);
    assert forall|k: int| 0 <= k < held.len() implies opened_at((#[trigger] held[k]).0) is Some by {
        let i = choose|i: int| 0 <= i < deeds.len() && (#[trigger] deeds[i]).hour() == held[k].0;
        assert(hour_reads_back(deeds[i].frame().received_at));
    }
    assert forall|i: int, j: int| 0 <= i < j < held.len() implies !earlier(
        opened_at((#[trigger] held[j]).0)->0,
        opened_at((#[trigger] held[i]).0)->0,
    ) by {
        let a = choose|a: int| 0 <= a < deeds.len() && (#[trigger] deeds[a]).hour() == held[i].0;
        let b = choose|b: int| 0 <= b < deeds.len() && (#[trigger] deeds[b]).hour() == held[j].0;
        assert(hour_reads_back(deeds[a].frame().received_at));
        assert(hour_reads_back(deeds[b].frame().received_at));
        lemma_sorted_hours(deeds[a], deeds[b]);
    }
    assert forall|k: int, r: int|
        0 <= k < held.len() - 1 && 0 <= r < records(held[k].1).len() implies earlier(
        moment_at((#[trigger] records(held[k].1)[r]).0),
        opened_at(held[k + 1].0)->0,
    ) by {
        let taken = records(held[k].1)[r];
        assert(of_its_hour(deeds, held[k].0, taken));
        let a = choose|a: int|
            0 <= a < deeds.len() && (#[trigger] deeds[a]).hour() == held[k].0 && moment_at(taken.0)
                == deeds[a].frame().received_at;
        let next = held[k + 1];
        let b = choose|b: int| 0 <= b < deeds.len() && (#[trigger] deeds[b]).hour() == next.0;
        assert(hour_reads_back(deeds[b].frame().received_at));
        lemma_sorted_hours(deeds[a], deeds[b]);
    }
    starting_at_a_moment_misses_nothing_since(held, moment, cursor, last_len);
}

proof fn lemma_sorted_hours(one: Deed, other: Deed)
    requires
        one.is_deed(),
        other.is_deed(),
        hour_sorts(one.frame().received_at),
        sorts_before(one.hour(), other.hour()),
    ensures
        one.hours() < other.hours(),
        one.frame().received_at.0 < other.frame().received_at.0
            - other.frame().received_at.0 % 3600,
{
}

proof fn lemma_left_in_time(deeds: Seq<Deed>)
    requires
        forall|i: int| 0 <= i < deeds.len() ==> (#[trigger] deeds[i]).is_deed(),
    ensures
        forall|i: int|
            0 <= i < left_by(deeds).len() ==> 0 <= (#[trigger] left_by(deeds)[i]).received_at.1
                < 1_000_000_000,
    decreases deeds.len(),
{
    if deeds.len() > 0 {
        let before = deeds.drop_last();
        assert forall|i: int| 0 <= i < before.len() implies (#[trigger] before[i]).is_deed() by {
            assert(before[i] == deeds[i]);
        }
        lemma_left_in_time(before);
        let last = deeds[deeds.len() - 1];
        assert(last.is_deed());
        assert(left_by(deeds) == left_by(before) + last.left());
        assert forall|i: int| 0 <= i < left_by(deeds).len() implies 0 <= (
        #[trigger] left_by(deeds)[i]).received_at.1 < 1_000_000_000 by {
            if i < left_by(before).len() {
                assert(left_by(deeds)[i] == left_by(before)[i]);
            } else {
                assert(left_by(deeds)[i] == last.left()[i - left_by(before).len()]);
            }
        }
    }
}

/// A directory is listed in feed order one way only.
pub proof fn a_directory_lists_one_way(
    held: Seq<(Seq<char>, Seq<u8>)>,
    other: Seq<(Seq<char>, Seq<u8>)>,
    files: Map<Seq<char>, Seq<u8>>,
)
    requires
        lists(held, files),
        lists(other, files),
        in_feed_order(held),
        in_feed_order(other),
    ensures
        held == other,
    decreases held.len(),
{
    if held.len() == 0 {
        if other.len() > 0 {
            assert(files.dom().contains(other[0].0));
        }
        assert(held == other);
    } else {
        assert(files.dom().contains(held[0].0));
        assert(names(other).contains(held[0].0));
        assert(held[held.len() - 1] == held.last());
        assert(other[other.len() - 1] == other.last());
        assert(held.last().0 == other.last().0) by {
            assert(files.dom().contains(held.last().0) && files.dom().contains(other.last().0));
            assert(names(other).contains(held.last().0) && names(held).contains(other.last().0));
            let i = choose|i: int|
                0 <= i < names(other).len() && names(other)[i] == held.last().0;
            let j = choose|j: int| 0 <= j < names(held).len() && names(held)[j] == other.last().0;
            assert(other[i].0 == held.last().0 && held[j].0 == other.last().0);
            sorting_is_total(held.last().0, other.last().0);
        }
        let name = held.last().0;
        let fewer = files.remove(name);
        lemma_listed_without_last(held, files);
        lemma_listed_without_last(other, files);
        a_directory_lists_one_way(held.drop_last(), other.drop_last(), fewer);
        assert(held == held.drop_last().push(held.last()));
        assert(other == other.drop_last().push(other.last()));
    }
}

proof fn lemma_listed_without_last(
    held: Seq<(Seq<char>, Seq<u8>)>,
    files: Map<Seq<char>, Seq<u8>>,
)
    requires
        held.len() > 0,
        lists(held, files),
        in_feed_order(held),
    ensures
        lists(held.drop_last(), files.remove(held.last().0)),
        in_feed_order(held.drop_last()),
{
    let fewer = files.remove(held.last().0);
    let most = held.drop_last();
    assert(held[held.len() - 1] == held.last());
    assert forall|i: int, j: int| 0 <= i < j < most.len() implies sorts_before(
        (#[trigger] most[i]).0,
        (#[trigger] most[j]).0,
    ) by {
        assert(most[i] == held[i] && most[j] == held[j]);
    }
    assert forall|k: int| 0 <= k < most.len() implies fewer.dom().contains((#[trigger] most[k]).0)
        && fewer[most[k].0] == most[k].1 by {
        assert(most[k] == held[k]);
        sorting_is_total(held[k].0, held.last().0);
    }
    assert forall|name: Seq<char>| #[trigger] fewer.dom().contains(name) implies names(
        most,
    ).contains(name) by {
        assert(files.dom().contains(name));
        let k = choose|k: int| 0 <= k < names(held).len() && names(held)[k] == name;
        assert(held[k].0 == name);
        assert(names(most)[k] == name);
    }
}

} // verus!
