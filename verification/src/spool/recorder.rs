//! Writing a live feed down, one segment an hour.
//!
//! A [`Recorder`] decides and the file system is written around it: which
//! segment a frame belongs to, what bytes are appended, and which segments have
//! aged out.

use crate::error::{Fault, FaultKind};
use crate::frame::{Frame, FrameView};
use crate::json::maybe;
use crate::moment::{
    earlier, epoch_nanos, in_nanosecond_era, moment_at, moments_are_ordered_by_their_nanoseconds,
    nanoseconds_round_trip, spelled, Moment, FIRST_SECOND, HOUR_FORMAT, LAST_SECOND,
};
use crate::position::Position;
use crate::spool::record::{
    a_record_reads_back, encode, kept, kept_length, look, readable, record, sound, whole_length,
    written, LARGEST,
};
use crate::spool::segment::{hour_sorts, opened, opened_at, segment_name};
use crate::text::{has_text, same, sorts_before, texts};
use vstd::prelude::*;

verus! {

/// The longest window that can be kept, in nanoseconds: as many milliseconds
/// as an `i64` counts. A longer one prunes nothing.
pub const LONGEST_WINDOW: u128 = 9_223_372_036_854_775_807_000_000;

/// What a recorder remembers
#[derive(Debug)]
pub struct Recorder {
    /// The hour of the segment being written.
    pub open: Option<String>,
    /// How much history to keep, in nanoseconds, where the operator asked for
    /// a bound.
    pub retain: Option<u128>,
}

/// What writing a frame takes
#[derive(Debug)]
pub struct Write {
    /// The hour whose segment is opened first, where the hour has turned.
    pub roll: Option<String>,
    /// The bytes appended to the segment then, or why there are none.
    pub record: Result<Vec<u8>, Fault>,
}

impl Write {
    /// Whether this is what writing a frame takes of a recorder with a segment
    /// open, or none: the segment of the frame's hour is opened unless it is
    /// that one, and the frame's record is appended unless the frame is larger
    /// than a record may hold.
    pub open spec fn takes(self, open: Option<Seq<char>>, frame: FrameView) -> bool {
        let hour = spelled(frame.received_at, HOUR_FORMAT@);
        &&& match self.roll {
            Some(roll) => roll@ == hour && open != Some(hour),
            None => open == Some(hour),
        }
        &&& match self.record {
            Ok(bytes) => {
                &&& readable((epoch_nanos(frame.received_at), frame.bytes))
                &&& bytes@ == record(epoch_nanos(frame.received_at), frame.bytes)
            },
            Err(fault) => {
                &&& frame.bytes.len() > LARGEST
                &&& fault.kind == FaultKind::InvalidInput
                &&& fault.message@ == too_large(frame.bytes.len())
            },
        }
    }
}

/// What pruning takes
#[derive(Debug)]
pub struct Pruning {
    /// The segments that go, oldest first.
    pub going: Vec<String>,
    /// The consumers whose cursor names one of them, each with the segment it
    /// will have lost.
    pub losing: Vec<(String, String)>,
}

/// Whether a segment has aged out of a window by now: it was opened before the
/// window begins, and is not the one being written.
pub open spec fn aged_out(name: Seq<char>, writing: Option<String>, keep: (int, int)) -> bool {
    &&& match opened_at(name) {
        Some(at) => earlier(at, keep),
        None => false,
    }
    &&& match writing {
        Some(hour) => name != hour@,
        None => true,
    }
}

/// The segments that have aged out, in order.
pub open spec fn aging(held: Seq<Seq<char>>, writing: Option<String>, keep: (int, int)) -> Seq<
    Seq<char>,
>
    decreases held.len(),
{
    if held.len() == 0 {
        Seq::empty()
    } else {
        let before = aging(held.drop_last(), writing, keep);
        if aged_out(held.last(), writing, keep) {
            before.push(held.last())
        } else {
            before
        }
    }
}

/// The consumers whose cursor names a segment that goes, in order, each with
/// that segment.
pub open spec fn losers(cursors: Seq<(String, Position)>, going: Seq<Seq<char>>) -> Seq<
    (Seq<char>, Seq<char>),
>
    decreases cursors.len(),
{
    if cursors.len() == 0 {
        Seq::empty()
    } else {
        let before = losers(cursors.drop_last(), going);
        let (who, at) = cursors.last();
        if going.contains(at.segment@) {
            before.push((who@, at.segment@))
        } else {
            before
        }
    }
}

/// The texts of some pairs of strings.
pub open spec fn pairs(strings: Seq<(String, String)>) -> Seq<(Seq<char>, Seq<char>)> {
    Seq::new(strings.len(), |i: int| (strings[i].0@, strings[i].1@))
}

/// What is said of a frame of so many bytes, which is more than a record may
/// hold.
pub open spec fn too_large(len: nat) -> Seq<char> {
    if len > u32::MAX {
        "a frame past 4 GiB"@
    } else {
        "a frame past 1 MiB"@
    }
}

/// Whether this is what pruning takes of a recorder by now.
pub open spec fn prunes(
    recorder: Recorder,
    held: Seq<Seq<char>>,
    cursors: Seq<(String, Position)>,
    now: (int, int),
    pruning: Pruning,
) -> bool {
    if recorder.retain is Some && recorder.retain->0 <= LONGEST_WINDOW {
        let keep = moment_at(epoch_nanos(now) - recorder.retain->0);
        &&& texts(pruning.going@) == aging(held, recorder.open, keep)
        &&& pairs(pruning.losing@) == losers(cursors, texts(pruning.going@))
    } else {
        pruning.going@.len() == 0 && pruning.losing@.len() == 0
    }
}

/// Whether a recorder comes to another as the segment of an hour is opened, and
/// keeps this much of what its file held.
pub open spec fn rolls(
    before: Recorder,
    hour: String,
    held: Seq<u8>,
    after: Recorder,
    keep: usize,
) -> bool {
    &&& after == (Recorder { open: Some(hour), retain: before.retain })
    &&& keep == kept_length(held)
}

impl Recorder {
    /// A recorder with no segment open yet, keeping everything.
    pub open spec fn fresh() -> Recorder {
        Recorder { open: None, retain: None }
    }

    /// This recorder keeping only what was received inside a window.
    pub open spec fn kept_to(self, window: u128) -> Recorder {
        Recorder { open: self.open, retain: Some(window) }
    }

    /// A recorder with no segment open yet, keeping everything.
    pub fn open() -> (recorder: Recorder)
        ensures
            recorder == Recorder::fresh(),
    {
        Recorder { open: None, retain: None }
    }

    /// Keep only what was received inside `window`, in nanoseconds
    ///
    /// Pruning happens on the hour roll and takes whole segments, never
    /// records: an operator can see what is held by listing the directory, and
    /// a segment is either there or it is not.
    pub fn retaining(self, window: u128) -> (recorder: Recorder)
        ensures
            recorder == self.kept_to(window),
    {
        Recorder { open: self.open, retain: Some(window) }
    }

    /// Write one frame, rolling the segment where the hour has turned
    ///
    /// The segment is rolled before anything is written, and by
    /// [`roll`](Recorder::roll) once its file is open. A frame larger than a
    /// record may hold is refused: written down, it would stop every reader
    /// where it stands.
    pub fn write(&self, frame: &Frame) -> (write: Write)
        requires
            in_nanosecond_era(frame.received_at@),
        ensures
            write.takes(maybe(self.open), frame@),
            hour_sorts(frame.received_at@),
    {
        let hour = segment_name(frame.received_at);
        let rolled = match &self.open {
            Some(open) => !same(open.as_str(), hour.as_str()),
            None => true,
        };
        let roll = if rolled { Some(hour) } else { None };
        let len: u64 = frame.bytes.len() as u64;
        let record = if len > LARGEST as u64 {
            let message = if len > u32::MAX as u64 {
                "a frame past 4 GiB".to_owned()
            } else {
                "a frame past 1 MiB".to_owned()
            };
            Err(Fault { kind: FaultKind::InvalidInput, message })
        } else {
            match frame.received_at.timestamp_nanos() {
                Some(at) => Ok(encode(at, &frame.bytes)),
                None => {
                    assert(false);
                    Ok(Vec::new())
                },
            }
        };
        Write { roll, record }
    }

    /// The segment of `hour` is open, and is the one being written
    ///
    /// `held` is what the segment's file holds already, which is nothing
    /// unless a recorder wrote to it before this one was started. What comes
    /// back is how much of it to keep: where that recorder was killed in the
    /// middle of a record, the file is cut back to the record before it, or
    /// the next one would be read as the rest of that.
    pub fn roll(&mut self, hour: String, held: &[u8]) -> (keep: usize)
        ensures
            rolls(*old(self), hour, held@, *final(self), keep),
            keep <= held@.len(),
    {
        self.open = Some(hour);
        kept(held)
    }

    /// The whole segments older than the window, and who is about to lose one
    ///
    /// **It never refuses.** A consumer that has stopped must not be able to
    /// fill a disk, so a cursor naming a segment on its way out is named and
    /// the segment goes anyway. The consumer finds out when it comes back and
    /// its cursor names nothing.
    pub fn prune(
        &self,
        held: &Vec<String>,
        cursors: &Vec<(String, Position)>,
        now: Moment,
    ) -> (pruning: Pruning)
        requires
            now@.1 < 1_000_000_000,
            self.retain is Some && self.retain->0 <= LONGEST_WINDOW ==> epoch_nanos(now@)
                - self.retain->0 >= FIRST_SECOND * 1_000_000_000,
        ensures
            prunes(*self, texts(held@), cursors@, now@, pruning),
    {
        let mut going: Vec<String> = Vec::new();
        let mut losing: Vec<(String, String)> = Vec::new();
        let window: u128 = match self.retain {
            Some(window) => window,
            None => {
                return Pruning { going, losing };
            },
        };
        if window > LONGEST_WINDOW {
            return Pruning { going, losing };
        }
        let keep: i128 = now.since_epoch() - window as i128;
        let ghost from = moment_at(keep as int);
        let mut i: usize = 0;
        assert(texts(going@) == aging(texts(held@).take(0), self.open, from));
        while i < held.len()
            invariant
                i <= held.len(),
                FIRST_SECOND * 1_000_000_000 <= keep < (LAST_SECOND + 1) * 1_000_000_000,
                from == moment_at(keep as int),
                texts(going@) == aging(texts(held@).take(i as int), self.open, from),
            decreases held.len() - i,
        {
            let name = &held[i];
            let ghost before = texts(going@);
            assert(texts(held@).take(i + 1).drop_last() == texts(held@).take(i as int));
            assert(texts(held@).take(i + 1).last() == name@);
            let old = match opened(name.as_str()) {
                Some(at) => at.before_nanos(keep),
                None => false,
            };
            // The segment being written is never a candidate, however the
            // clock is set.
            let writing = match &self.open {
                Some(hour) => same(name.as_str(), hour.as_str()),
                None => false,
            };
            if old && !writing {
                going.push(name.clone());
                assert(texts(going@) == before.push(name@));
            }
            i += 1;
        }
        assert(texts(held@).take(i as int) == texts(held@));
        let mut j: usize = 0;
        let ghost gone = texts(going@);
        assert(pairs(losing@) == losers(cursors@.take(0), gone));
        while j < cursors.len()
            invariant
                j <= cursors.len(),
                gone == texts(going@),
                pairs(losing@) == losers(cursors@.take(j as int), gone),
            decreases cursors.len() - j,
        {
            let (who, at) = &cursors[j];
            let ghost before = pairs(losing@);
            assert(cursors@.take(j + 1).drop_last() == cursors@.take(j as int));
            assert(cursors@.take(j + 1).last() == cursors@[j as int]);
            if has_text(&going, at.segment.as_str()) {
                losing.push((who.clone(), at.segment.clone()));
                assert(pairs(losing@) == before.push((who@, at.segment@)));
            }
            j += 1;
        }
        assert(cursors@.take(j as int) == cursors@);
        Pruning { going, losing }
    }
}

/// Whether what came of writing a frame is nothing to stop over.
pub open spec fn carries_on(written: Result<(), Fault>) -> bool {
    written is Ok || written->Err_0.kind == FaultKind::InvalidInput
}

/// Whether a recording goes on after what came of writing a frame
///
/// A frame that no reader would take back is not written, and is nothing to
/// stop over. A disk that will not take a write is: a recorder that kept
/// running would be one writing nothing down while looking busy.
pub fn goes_on(written: &Result<(), Fault>) -> (on: bool)
    ensures
        on == carries_on(*written),
{
    match written {
        Ok(()) => true,
        Err(fault) => matches!(fault.kind, FaultKind::InvalidInput),
    }
}

/// Pruning never takes the segment being written, nor one opened inside the
/// window.
pub proof fn pruning_keeps_the_window(
    held: Seq<Seq<char>>,
    writing: Option<String>,
    keep: (int, int),
    name: Seq<char>,
)
    requires
        aging(held, writing, keep).contains(name),
    ensures
        held.contains(name),
        writing is Some ==> name != writing->0@,
        opened_at(name) is Some && earlier(opened_at(name)->0, keep),
    decreases held.len(),
{
    let all = aging(held, writing, keep);
    if held.len() > 0 {
        let before = aging(held.drop_last(), writing, keep);
        let k = choose|k: int| 0 <= k < all.len() && all[k] == name;
        if k < before.len() {
            assert(before[k] == name);
            pruning_keeps_the_window(held.drop_last(), writing, keep, name);
            let i = choose|i: int| 0 <= i < held.drop_last().len() && held.drop_last()[i] == name;
            assert(held[i] == name);
        } else {
            assert(held.last() == name);
            assert(held[held.len() - 1] == name);
        }
    }
}

/// Every segment that has aged out goes.
pub proof fn pruning_takes_what_has_aged_out(
    held: Seq<Seq<char>>,
    writing: Option<String>,
    keep: (int, int),
    name: Seq<char>,
)
    requires
        held.contains(name),
        aged_out(name, writing, keep),
    ensures
        aging(held, writing, keep).contains(name),
    decreases held.len(),
{
    let all = aging(held, writing, keep);
    let i = choose|i: int| 0 <= i < held.len() && held[i] == name;
    if i == held.len() - 1 {
        assert(all.last() == name);
        assert(all[all.len() - 1] == name);
    } else {
        assert(held.drop_last()[i] == name);
        pruning_takes_what_has_aged_out(held.drop_last(), writing, keep, name);
        let before = aging(held.drop_last(), writing, keep);
        let k = choose|k: int| 0 <= k < before.len() && before[k] == name;
        assert(all[k] == name);
    }
}

proof fn lemma_aging(
    held: Seq<Seq<char>>,
    writing: Option<String>,
    keep: (int, int),
    name: Seq<char>,
)
    ensures
        aging(held, writing, keep).contains(name) <==> held.contains(name) && opened_at(
            name,
        ) is Some && earlier(opened_at(name)->0, keep) && maybe(writing) != Some(name),
{
    if aging(held, writing, keep).contains(name) {
        pruning_keeps_the_window(held, writing, keep, name);
    }
    if held.contains(name) && opened_at(name) is Some && earlier(opened_at(name)->0, keep)
        && maybe(writing) != Some(name) {
        pruning_takes_what_has_aged_out(held, writing, keep, name);
    }
}

proof fn lemma_aging_in_order(held: Seq<Seq<char>>, writing: Option<String>, keep: (int, int))
    requires
        forall|i: int, j: int|
            0 <= i < j < held.len() ==> sorts_before(#[trigger] held[i], #[trigger] held[j]),
    ensures
        ({
            let going = aging(held, writing, keep);
            forall|i: int, j: int|
                0 <= i < j < going.len() ==> sorts_before(#[trigger] going[i], #[trigger] going[j])
        }),
    decreases held.len(),
{
    if held.len() > 0 {
        let most = held.drop_last();
        assert forall|i: int, j: int| 0 <= i < j < most.len() implies sorts_before(
            #[trigger] most[i],
            #[trigger] most[j],
        ) by {
            assert(most[i] == held[i] && most[j] == held[j]);
        }
        lemma_aging_in_order(most, writing, keep);
        let before = aging(most, writing, keep);
        let going = aging(held, writing, keep);
        assert forall|i: int, j: int| 0 <= i < j < going.len() implies sorts_before(
            #[trigger] going[i],
            #[trigger] going[j],
        ) by {
            assert(going[i] == before[i]);
            if j < before.len() {
                assert(going[j] == before[j]);
            } else {
                assert(before.contains(before[i]));
                pruning_keeps_the_window(most, writing, keep, before[i]);
                let k = choose|k: int| 0 <= k < most.len() && most[k] == before[i];
                assert(held[k] == going[i] && held[held.len() - 1] == going[j]);
            }
        }
    }
}

proof fn lemma_losers(
    cursors: Seq<(String, Position)>,
    going: Seq<Seq<char>>,
    who: Seq<char>,
    segment: Seq<char>,
)
    ensures
        losers(cursors, going).contains((who, segment)) <==> going.contains(segment) && exists|
            i: int,
        |
            0 <= i < cursors.len() && (#[trigger] cursors[i]).0@ == who && cursors[i].1.segment@
                == segment,
    decreases cursors.len(),
{
    if cursors.len() > 0 {
        let most = cursors.drop_last();
        let before = losers(most, going);
        let all = losers(cursors, going);
        let last = cursors[cursors.len() - 1];
        lemma_losers(most, going, who, segment);
        if before.contains((who, segment)) {
            let k = choose|k: int| 0 <= k < before.len() && before[k] == (who, segment);
            assert(all[k] == (who, segment));
            let i = choose|i: int|
                0 <= i < most.len() && (#[trigger] most[i]).0@ == who && most[i].1.segment@
                    == segment;
            assert(cursors[i] == most[i]);
        }
        if going.contains(last.1.segment@) && last.0@ == who && last.1.segment@ == segment {
            assert(all[all.len() - 1] == (who, segment));
        }
        if all.contains((who, segment)) && !before.contains((who, segment)) {
            let k = choose|k: int| 0 <= k < all.len() && all[k] == (who, segment);
            if k < before.len() {
                assert(before[k] == all[k]);
            }
            assert(cursors[cursors.len() - 1].0@ == who);
        }
        if exists|i: int|
            0 <= i < cursors.len() && (#[trigger] cursors[i]).0@ == who && cursors[i].1.segment@
                == segment {
            let i = choose|i: int|
                0 <= i < cursors.len() && (#[trigger] cursors[i]).0@ == who
                    && cursors[i].1.segment@ == segment;
            if i < most.len() {
                assert(most[i] == cursors[i]);
            }
        }
    }
}

/// With a window asked for, a segment goes exactly where it is held, was opened
/// longer ago than the window runs, and is not the one being written: however
/// much longer ago, and whoever has not read it yet. What goes is in the order
/// it is held in, each once.
pub proof fn what_is_older_than_the_window_goes(
    recorder: Recorder,
    held: Seq<Seq<char>>,
    cursors: Seq<(String, Position)>,
    now: (int, int),
    pruning: Pruning,
    name: Seq<char>,
)
    requires
        recorder.retain is Some,
        recorder.retain->0 <= 9_223_372_036_854_775_807_000_000,
        prunes(recorder, held, cursors, now, pruning),
    ensures
        ({
            let keep = moment_at(epoch_nanos(now) - recorder.retain->0);
            texts(pruning.going@).contains(name) <==> held.contains(name) && opened_at(
                name,
            ) is Some && earlier(opened_at(name)->0, keep) && maybe(recorder.open) != Some(name)
        }),
        opened_at(name) is Some && 0 <= opened_at(name).unwrap().1 < 1_000_000_000 ==> (texts(
            pruning.going@,
        ).contains(name) <==> held.contains(name) && epoch_nanos(opened_at(name)->0)
            + recorder.retain->0 < epoch_nanos(now) && maybe(recorder.open) != Some(name)),
        (forall|i: int, j: int|
            0 <= i < j < held.len() ==> sorts_before(#[trigger] held[i], #[trigger] held[j]))
            ==> forall|i: int, j: int|
            0 <= i < j < pruning.going@.len() ==> sorts_before(
                #[trigger] texts(pruning.going@)[i],
                #[trigger] texts(pruning.going@)[j],
            ),
{
    let keep = moment_at(epoch_nanos(now) - recorder.retain->0);
    lemma_aging(held, recorder.open, keep, name);
    if opened_at(name) is Some && 0 <= opened_at(name).unwrap().1 < 1_000_000_000 {
        moments_are_ordered_by_their_nanoseconds(opened_at(name)->0, keep);
        assert(epoch_nanos(keep) == epoch_nanos(now) - recorder.retain->0);
    }
    if forall|i: int, j: int|
        0 <= i < j < held.len() ==> sorts_before(#[trigger] held[i], #[trigger] held[j]) {
        lemma_aging_in_order(held, recorder.open, keep);
    }
}

/// Without a window, or with one longer than can be counted, nothing goes.
pub proof fn nothing_goes_without_a_window(
    recorder: Recorder,
    held: Seq<Seq<char>>,
    cursors: Seq<(String, Position)>,
    now: (int, int),
    pruning: Pruning,
)
    requires
        recorder.retain is None || recorder.retain->0 > 9_223_372_036_854_775_807_000_000,
        prunes(recorder, held, cursors, now, pruning),
    ensures
        pruning.going@.len() == 0,
        pruning.losing@.len() == 0,
{
}

/// A consumer is named exactly where its cursor is in a segment that goes, and
/// named with that segment.
pub proof fn whoever_loses_a_segment_is_named(
    recorder: Recorder,
    held: Seq<Seq<char>>,
    cursors: Seq<(String, Position)>,
    now: (int, int),
    pruning: Pruning,
    who: Seq<char>,
    segment: Seq<char>,
)
    requires
        prunes(recorder, held, cursors, now, pruning),
    ensures
        pairs(pruning.losing@).contains((who, segment)) <==> texts(pruning.going@).contains(
            segment,
        ) && exists|i: int|
            0 <= i < cursors.len() && (#[trigger] cursors[i]).0@ == who && cursors[i].1.segment@
                == segment,
{
    lemma_losers(cursors, texts(pruning.going@), who, segment);
    if pruning.losing@.len() == 0 {
        assert(pairs(pruning.losing@).len() == 0);
    }
    if pruning.going@.len() == 0 {
        assert(texts(pruning.going@).len() == 0);
    }
}

/// A frame that a record may hold is written down whole and as it came, in the
/// segment of the hour it was received in, and one that is larger is refused.
pub proof fn a_frame_is_written_down_as_it_came(
    write: Write,
    open: Option<Seq<char>>,
    frame: FrameView,
    rest: Seq<u8>,
)
    requires
        write.takes(open, frame),
        in_nanosecond_era(frame.received_at),
        0 <= frame.received_at.1 < 1_000_000_000,
    ensures
        write.record is Ok <==> frame.bytes.len() <= 1_048_576,
        write.record is Ok ==> {
            let found = look(write.record->Ok_0@ + rest);
            &&& found is Whole
            &&& found->bytes == frame.bytes
            &&& moment_at(found->nanos) == frame.received_at
        },
        write.record is Err ==> write.record->Err_0.kind == FaultKind::InvalidInput,
        ({
            let hour = spelled(frame.received_at, "%Y%m%d%H"@);
            &&& open == Some(hour) <==> write.roll is None
            &&& write.roll is Some ==> write.roll->0@ == hour
        }),
{
    if write.record is Ok {
        a_record_reads_back((epoch_nanos(frame.received_at), frame.bytes), rest);
        nanoseconds_round_trip(frame.received_at);
    }
}

/// A frame too large to be written down is said to be past what a record may
/// hold, or past what a length can be written for where it is that large.
pub proof fn a_frame_too_large_is_said_to_be(
    write: Write,
    open: Option<Seq<char>>,
    frame: FrameView,
)
    requires
        write.takes(open, frame),
    ensures
        1_048_576 < frame.bytes.len() < 0x1_0000_0000 ==> write.record is Err
            && write.record->Err_0.message@ == "a frame past 1 MiB"@,
        frame.bytes.len() >= 0x1_0000_0000 ==> write.record is Err && write.record->Err_0.message@
            == "a frame past 4 GiB"@,
{
}

/// A segment that is opened is the one being written from then on, and of what
/// its file held the whole records are kept, to the byte, unless a head among
/// them claims too much: then all of it is, for a reader to report.
pub proof fn an_opened_segment_keeps_its_whole_records(
    before: Recorder,
    hour: String,
    frames: Seq<(int, Seq<u8>)>,
    torn: Seq<u8>,
    after: Recorder,
    keep: usize,
)
    requires
        rolls(before, hour, written(frames) + torn, after, keep),
        forall|i: int| 0 <= i < frames.len() ==> readable(#[trigger] frames[i]),
    ensures
        after.open == Some(hour),
        after.retain == before.retain,
        look(torn) is Torn ==> keep == written(frames).len(),
        look(torn) is Oversized ==> keep == (written(frames) + torn).len(),
{
    if !(look(torn) is Whole) {
        lemma_kept(frames, torn);
    }
}

proof fn lemma_kept(frames: Seq<(int, Seq<u8>)>, torn: Seq<u8>)
    requires
        forall|i: int| 0 <= i < frames.len() ==> readable(#[trigger] frames[i]),
        !(look(torn) is Whole),
    ensures
        whole_length(written(frames) + torn) == written(frames).len(),
        sound(written(frames) + torn) <==> look(torn) is Torn,
    decreases frames.len(),
{
    let tail = written(frames) + torn;
    if frames.len() == 0 {
        assert(tail =~= torn);
    } else {
        let rest = frames.skip(1);
        let first = record(frames[0].0, frames[0].1);
        assert(readable(frames[0]));
        assert forall|i: int| 0 <= i < rest.len() implies readable(#[trigger] rest[i]) by {
            assert(readable(frames[i + 1]));
        }
        lemma_kept(rest, torn);
        assert(tail =~= first + (written(rest) + torn));
        a_record_reads_back(frames[0], written(rest) + torn);
        assert(tail.skip(first.len() as int) =~= written(rest) + torn);
    }
}

/// A recording goes on over a frame that was written and over one that could
/// not be written down, and over nothing else.
pub proof fn a_recording_stops_where_its_files_fail(
    write: Write,
    open: Option<Seq<char>>,
    frame: FrameView,
    written: Result<(), Fault>,
)
    requires
        write.takes(open, frame),
    ensures
        written is Ok ==> carries_on(written),
        write.record is Err && written is Err && written->Err_0 == write.record->Err_0
            ==> carries_on(written),
        written is Err && written->Err_0.kind == FaultKind::Other ==> !carries_on(written),
        written is Err && written->Err_0.kind == FaultKind::NotFound ==> !carries_on(written),
        written is Err && written->Err_0.kind == FaultKind::InvalidData ==> !carries_on(written),
{
}

/// Whoever is named is named once, in the order the cursors come in.
pub proof fn whoever_is_named_is_named_once(
    recorder: Recorder,
    held: Seq<Seq<char>>,
    cursors: Seq<(String, Position)>,
    now: (int, int),
    pruning: Pruning,
)
    requires
        prunes(recorder, held, cursors, now, pruning),
        forall|i: int, j: int|
            0 <= i < j < cursors.len() ==> sorts_before(
                (#[trigger] cursors[i]).0@,
                (#[trigger] cursors[j]).0@,
            ),
    ensures
        forall|i: int, j: int|
            0 <= i < j < pruning.losing@.len() ==> sorts_before(
                (#[trigger] pruning.losing@[i]).0@,
                (#[trigger] pruning.losing@[j]).0@,
            ),
{
    let going = texts(pruning.going@);
    let named = pairs(pruning.losing@);
    if pruning.losing@.len() > 0 {
        lemma_losers_in_order(cursors, going);
        assert forall|i: int, j: int| 0 <= i < j < pruning.losing@.len() implies sorts_before(
            (#[trigger] pruning.losing@[i]).0@,
            (#[trigger] pruning.losing@[j]).0@,
        ) by {
            assert(named[i].0 == pruning.losing@[i].0@ && named[j].0 == pruning.losing@[j].0@);
        }
    }
}

proof fn lemma_losers_in_order(cursors: Seq<(String, Position)>, going: Seq<Seq<char>>)
    requires
        forall|i: int, j: int|
            0 <= i < j < cursors.len() ==> sorts_before(
                (#[trigger] cursors[i]).0@,
                (#[trigger] cursors[j]).0@,
            ),
    ensures
        forall|i: int, j: int|
            0 <= i < j < losers(cursors, going).len() ==> sorts_before(
                (#[trigger] losers(cursors, going)[i]).0,
                (#[trigger] losers(cursors, going)[j]).0,
            ),
    decreases cursors.len(),
{
    if cursors.len() > 0 {
        let most = cursors.drop_last();
        lemma_losers_in_order(most, going);
        let before = losers(most, going);
        let all = losers(cursors, going);
        assert forall|i: int, j: int| 0 <= i < j < all.len() implies sorts_before(
            (#[trigger] all[i]).0,
            (#[trigger] all[j]).0,
        ) by {
            assert(all[i] == before[i]);
            if j < before.len() {
                assert(all[j] == before[j]);
            } else {
                assert(before.contains((all[i].0, all[i].1)));
                lemma_losers(most, going, all[i].0, all[i].1);
                let k = choose|k: int|
                    0 <= k < most.len() && (#[trigger] most[k]).0@ == all[i].0
                        && most[k].1.segment@ == all[i].1;
                assert(cursors[k] == most[k]);
                assert(sorts_before(cursors[k].0@, cursors[cursors.len() - 1].0@));
            }
        }
    }
}

/// A recorder keeps everything until it is told how much to keep, and then goes
/// by exactly that; being told changes nothing of what it is writing.
pub proof fn a_recorder_keeps_what_it_was_told(
    recorder: Recorder,
    window: u128,
    held: Seq<Seq<char>>,
    cursors: Seq<(String, Position)>,
    now: (int, int),
    pruning: Pruning,
)
    ensures
        prunes(Recorder::fresh(), held, cursors, now, pruning) ==> pruning.going@.len() == 0,
        Recorder::fresh().open is None,
        recorder.kept_to(window).retain == Some(window),
        recorder.kept_to(window).open == recorder.open,
{
}

} // verus!
