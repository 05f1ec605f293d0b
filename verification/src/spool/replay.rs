//! What a spool read to its end hands over.
//!
//! The reader's own steps, followed over segments that do not change, until
//! there is nothing more: which frames come out, and in what order.

use crate::frame::FrameView;
use crate::moment::{
    earlier, epoch_nanos, in_nanosecond_era, moment_at, nanoseconds_round_trip, Moment,
};
use crate::position::place;
use crate::spool::reader::{
    a_record_taken_leaves_the_rest, ahead, ahead_in, in_feed_order, latest_opened,
    moving_on_skips_nothing, names, next_of, starts_at, steps, Replay, Sight, Spool, Start, Step,
};
use crate::spool::record::{
    a_record_reads_back, a_torn_tail_loses_only_the_partial_record, look, readable, record,
    records, sound, written, Look, HEAD, LARGEST,
};
use crate::spool::segment::opened_at;
use crate::text::{sorting_is_total, sorting_is_transitive, sorts_before, texts};
use vstd::prelude::*;

verus! {

/// The bytes of the segment so named, where it is held.
pub open spec fn segment_named(held: Seq<(Seq<char>, Seq<u8>)>, name: Seq<char>) -> Option<
    Seq<u8>,
>
    decreases held.len(),
{
    if held.len() == 0 {
        None
    } else if held[0].0 == name {
        Some(held[0].1)
    } else {
        segment_named(held.skip(1), name)
    }
}

/// What a reader finds at its position.
pub open spec fn found_at(held: Seq<(Seq<char>, Seq<u8>)>, at: Option<(Seq<char>, u64)>) -> Look {
    match at {
        Some(at) => match segment_named(held, at.0) {
            Some(bytes) => if at.1 <= bytes.len() {
                look(bytes.skip(at.1 as int))
            } else {
                Look::Torn
            },
            None => Look::Torn,
        },
        None => Look::Torn,
    }
}

/// The frames a reader hands over in so many steps, where it has reached the
/// end of what is recorded by then: a whole record is taken and handed over
/// unless it is skipped, a segment with none left is moved on from, and a
/// record that claims too much ends the run with nothing said.
pub open spec fn handed_over(
    held: Seq<(Seq<char>, Seq<u8>)>,
    at: Option<(Seq<char>, u64)>,
    since: Option<(int, int)>,
    steps: nat,
) -> Option<Seq<(int, Seq<u8>)>>
    decreases steps,
{
    if steps == 0 {
        None
    } else {
        match found_at(held, at) {
            Look::Whole { nanos, bytes } => {
                let past = Some((at.unwrap().0, (at.unwrap().1 + HEAD + bytes.len()) as u64));
                if since is Some && earlier(moment_at(nanos), since->0) {
                    handed_over(held, past, since, (steps - 1) as nat)
                } else {
                    match handed_over(held, past, None, (steps - 1) as nat) {
                        Some(rest) => Some(seq![(nanos, bytes)] + rest),
                        None => None,
                    }
                }
            },
            Look::Oversized { .. } => None,
            Look::Torn => match next_of(names(held), at) {
                Some(name) => handed_over(held, Some((name, 0u64)), since, (steps - 1) as nat),
                None => Some(Seq::empty()),
            },
        }
    }
}

/// What is left of some records once those before the first received at or
/// after a moment are dropped.
pub open spec fn from_moment(frames: Seq<(int, Seq<u8>)>, since: Option<(int, int)>) -> Seq<
    (int, Seq<u8>),
>
    decreases frames.len(),
{
    if frames.len() > 0 && since is Some && earlier(moment_at(frames[0].0), since->0) {
        from_moment(frames.skip(1), since)
    } else {
        frames
    }
}

pub(crate) proof fn lemma_segment_named(held: Seq<(Seq<char>, Seq<u8>)>, name: Seq<char>) -> (i: int)
    requires
        in_feed_order(held),
    ensures
        match segment_named(held, name) {
            Some(bytes) => 0 <= i < held.len() && held[i] == (name, bytes) && (forall|k: int|
                0 <= k < held.len() && (#[trigger] held[k]).0 == name ==> k == i),
            None => forall|k: int| 0 <= k < held.len() ==> (#[trigger] held[k]).0 != name,
        },
    decreases held.len(),
{
    if held.len() == 0 {
        0
    } else if held[0].0 == name {
        assert forall|k: int| 0 <= k < held.len() && (#[trigger] held[k]).0 == name implies k
            == 0 by {
            if k > 0 {
                sorting_is_total(held[0].0, held[k].0);
            }
        }
        0
    } else {
        assert forall|i: int, j: int|
            0 <= i < j < held.skip(1).len() implies sorts_before(
            (#[trigger] held.skip(1)[i]).0,
            (#[trigger] held.skip(1)[j]).0,
        ) by {
            assert(held.skip(1)[i] == held[i + 1] && held.skip(1)[j] == held[j + 1]);
        }
        let i = lemma_segment_named(held.skip(1), name);
        if segment_named(held, name) is Some {
            assert(held.skip(1)[i] == held[i + 1]);
            assert forall|k: int| 0 <= k < held.len() && (#[trigger] held[k]).0 == name implies k
                == i + 1 by {
                if k > 0 {
                    assert(held.skip(1)[k - 1] == held[k]);
                }
            }
        } else {
            assert forall|k: int| 0 <= k < held.len() implies (#[trigger] held[k]).0 != name by {
                if k > 0 {
                    assert(held.skip(1)[k - 1] == held[k]);
                }
            }
        }
        i + 1
    }
}

/// A spool read to its end hands over the records that lay ahead of where it
/// started, in the order they were recorded, from the first received at or
/// after the moment it was told to start at.
pub proof fn a_spool_hands_over_what_lies_ahead(
    held: Seq<(Seq<char>, Seq<u8>)>,
    at: Option<(Seq<char>, u64)>,
    since: Option<(int, int)>,
    steps: nat,
)
    requires
        in_feed_order(held),
        forall|k: int| 0 <= k < held.len() ==> (#[trigger] held[k]).1.len() <= u64::MAX,
    ensures
        handed_over(held, at, since, steps) is Some ==> handed_over(held, at, since, steps)->0
            == from_moment(ahead(held, at), since),
    decreases steps,
{
    if handed_over(held, at, since, steps) is Some {
        match found_at(held, at) {
            Look::Whole { nanos, bytes } => {
                let (segment, offset) = at.unwrap();
                let i = lemma_segment_named(held, segment);
                let past = Some((segment, (offset + HEAD + bytes.len()) as u64));
                assert(held[i].1.len() <= u64::MAX);
                a_record_taken_leaves_the_rest(held, i, offset);
                let all = ahead(held, at);
                assert(all == seq![(nanos, bytes)] + ahead(held, past));
                assert(all.skip(1) == ahead(held, past));
                if since is Some && earlier(moment_at(nanos), since->0) {
                    a_spool_hands_over_what_lies_ahead(held, past, since, (steps - 1) as nat);
                } else {
                    a_spool_hands_over_what_lies_ahead(held, past, None, (steps - 1) as nat);
                    assert(from_moment(ahead(held, past), None) == ahead(held, past));
                }
            },
            Look::Oversized { .. } => {},
            Look::Torn => {
                if at is Some {
                    let i = lemma_segment_named(held, at.unwrap().0);
                    assert forall|k: int|
                        0 <= k < held.len() && (#[trigger] held[k]).0
                            == at.unwrap().0 implies ahead_in(held[k], at).len() == 0 by {
                        assert(k == i);
                    }
                }
                moving_on_skips_nothing(held, at);
                match next_of(names(held), at) {
                    Some(name) => {
                        a_spool_hands_over_what_lies_ahead(
                            held,
                            Some((name, 0u64)),
                            since,
                            (steps - 1) as nat,
                        );
                    },
                    None => {
                        assert(ahead(held, at) == Seq::<(int, Seq<u8>)>::empty());
                    },
                }
            },
        }
    }
}

/// A segment as a recorder leaves it: a name, the frames written to it, and
/// what a kill may have left of one more record.
pub struct Recorded {
    pub name: Seq<char>,
    pub frames: Seq<(int, Seq<u8>)>,
    pub torn: Seq<u8>,
}

/// The segments a recorder leaves on the disk.
pub open spec fn on_disk(recorded: Seq<Recorded>) -> Seq<(Seq<char>, Seq<u8>)> {
    Seq::new(
        recorded.len(),
        |i: int| (recorded[i].name, written(recorded[i].frames) + recorded[i].torn),
    )
}

/// Every frame recorded, in the order of the segments.
pub open spec fn all_frames(recorded: Seq<Recorded>) -> Seq<(int, Seq<u8>)>
    decreases recorded.len(),
{
    if recorded.len() == 0 {
        Seq::empty()
    } else {
        recorded[0].frames + all_frames(recorded.skip(1))
    }
}

/// What was recorded is what is read: from the earliest record, the frames
/// ahead of a reader are the frames that were written, in order, each with the
/// time it was received, and torn tails take nothing from them.
pub proof fn a_recorded_feed_reads_back_as_itself(recorded: Seq<Recorded>)
    requires
        forall|i: int|
            0 <= i < recorded.len() ==> look((#[trigger] recorded[i]).torn) is Torn && forall|
                k: int,
            |
                0 <= k < recorded[i].frames.len() ==> readable(#[trigger] recorded[i].frames[k]),
    ensures
        ahead(on_disk(recorded), None) == all_frames(recorded),
    decreases recorded.len(),
{
    let held = on_disk(recorded);
    if recorded.len() > 0 {
        let first = recorded[0];
        a_torn_tail_loses_only_the_partial_record(first.frames, first.torn);
        assert forall|i: int| 0 <= i < recorded.skip(1).len() implies look(
            (#[trigger] recorded.skip(1)[i]).torn,
        ) is Torn && forall|k: int|
            0 <= k < recorded.skip(1)[i].frames.len() ==> readable(
                #[trigger] recorded.skip(1)[i].frames[k],
            ) by {
            assert(recorded.skip(1)[i] == recorded[i + 1]);
        }
        a_recorded_feed_reads_back_as_itself(recorded.skip(1));
        assert(held.skip(1) == on_disk(recorded.skip(1)));
    }
}

/// How many segments come after a position.
pub open spec fn segments_after(held: Seq<Seq<char>>, at: Option<(Seq<char>, u64)>) -> nat
    decreases held.len(),
{
    if held.len() == 0 {
        0
    } else {
        segments_after(held.skip(1), at) + if at is None || sorts_before(at.unwrap().0, held[0]) {
            1nat
        } else {
            0nat
        }
    }
}

/// How many steps take a reader from a position to the end: one for each
/// record ahead, one for each segment after, and one to find the end.
pub open spec fn steps_ahead(held: Seq<(Seq<char>, Seq<u8>)>, at: Option<(Seq<char>, u64)>) -> nat {
    ahead(held, at).len() + segments_after(names(held), at) + 1
}

proof fn lemma_fewer_after(held: Seq<Seq<char>>, one: Option<(Seq<char>, u64)>, other: Seq<char>)
    requires
        one is None || sorts_before(one.unwrap().0, other),
    ensures
        segments_after(held, Some((other, 0u64))) <= segments_after(held, one),
        held.contains(other) ==> segments_after(held, Some((other, 0u64))) < segments_after(
            held,
            one,
        ),
    decreases held.len(),
{
    if held.len() > 0 {
        lemma_fewer_after(held.skip(1), one, other);
        if sorts_before(other, held[0]) && one is Some {
            sorting_is_transitive(one.unwrap().0, other, held[0]);
        }
        if held.contains(other) && held[0] != other {
            let k = choose|k: int| 0 <= k < held.len() && held[k] == other;
            assert(held.skip(1)[k - 1] == other);
        }
        if held[0] == other {
            sorting_is_total(other, other);
        }
    }
}

pub(crate) proof fn lemma_next_segment(held: Seq<Seq<char>>, at: Option<(Seq<char>, u64)>)
    ensures
        match next_of(held, at) {
            Some(name) => held.contains(name) && (at is None || sorts_before(at.unwrap().0, name)),
            None => true,
        },
    decreases held.len(),
{
    if held.len() > 0 {
        if at is None || sorts_before(at.unwrap().0, held[0]) {
            assert(held[0] == next_of(held, at)->0);
        } else {
            lemma_next_segment(held.skip(1), at);
            if next_of(held, at) is Some {
                let name = next_of(held, at)->0;
                let k = choose|k: int| 0 <= k < held.skip(1).len() && held.skip(1)[k] == name;
                assert(held[k + 1] == name);
            }
        }
    }
}

/// A reader of segments that hold no head claiming too much gets to the end.
pub proof fn a_spool_read_to_its_end_ends(
    held: Seq<(Seq<char>, Seq<u8>)>,
    at: Option<(Seq<char>, u64)>,
    since: Option<(int, int)>,
)
    requires
        in_feed_order(held),
        forall|k: int|
            0 <= k < held.len() ==> (#[trigger] held[k]).1.len() <= u64::MAX && sound(held[k].1),
        forall|k: int|
            at is Some && 0 <= k < held.len() && (#[trigger] held[k]).0 == at.unwrap().0
                && at.unwrap().1 <= held[k].1.len() ==> sound(
                held[k].1.skip(at.unwrap().1 as int),
            ),
    ensures
        handed_over(held, at, since, steps_ahead(held, at)) is Some,
    decreases steps_ahead(held, at),
{
    match found_at(held, at) {
        Look::Whole { nanos, bytes } => {
            let (segment, offset) = at.unwrap();
            let i = lemma_segment_named(held, segment);
            let past = Some((segment, (offset + HEAD + bytes.len()) as u64));
            a_record_taken_leaves_the_rest(held, i, offset);
            lemma_offset_after(names(held), segment, offset, past.unwrap().1);
            assert(held[i].1.skip(offset as int).skip(HEAD + bytes.len()) == held[i].1.skip(
                past.unwrap().1 as int,
            ));
            assert forall|k: int|
                0 <= k < held.len() && (#[trigger] held[k]).0 == segment && past.unwrap().1
                    <= held[k].1.len() implies sound(held[k].1.skip(past.unwrap().1 as int)) by {
                assert(k == i);
            }
            a_spool_read_to_its_end_ends(held, past, since);
            a_spool_read_to_its_end_ends(held, past, None);
        },
        Look::Oversized { .. } => {
            let i = lemma_segment_named(held, at.unwrap().0);
            assert(sound(held[i].1.skip(at.unwrap().1 as int)));
        },
        Look::Torn => {
            if at is Some {
                let i = lemma_segment_named(held, at.unwrap().0);
                assert forall|k: int|
                    0 <= k < held.len() && (#[trigger] held[k]).0 == at.unwrap().0 implies ahead_in(
                    held[k],
                    at,
                ).len() == 0 by {
                    assert(k == i);
                }
            }
            moving_on_skips_nothing(held, at);
            lemma_next_segment(names(held), at);
            match next_of(names(held), at) {
                Some(name) => {
                    lemma_fewer_after(names(held), at, name);
                    assert forall|k: int|
                        0 <= k < held.len() && (#[trigger] held[k]).0 == name implies sound(
                        held[k].1.skip(0),
                    ) by {
                        assert(held[k].1.skip(0) == held[k].1);
                    }
                    a_spool_read_to_its_end_ends(held, Some((name, 0u64)), since);
                    lemma_more_steps(
                        held,
                        Some((name, 0u64)),
                        since,
                        steps_ahead(held, Some((name, 0u64))),
                        (steps_ahead(held, at) - 1) as nat,
                    );
                },
                None => {},
            }
        },
    }
}

proof fn lemma_offset_after(held: Seq<Seq<char>>, segment: Seq<char>, one: u64, other: u64)
    ensures
        segments_after(held, Some((segment, one))) == segments_after(held, Some((segment, other))),
    decreases held.len(),
{
    if held.len() > 0 {
        lemma_offset_after(held.skip(1), segment, one, other);
    }
}

proof fn lemma_more_steps(
    held: Seq<(Seq<char>, Seq<u8>)>,
    at: Option<(Seq<char>, u64)>,
    since: Option<(int, int)>,
    some: nat,
    more: nat,
)
    requires
        some <= more,
        handed_over(held, at, since, some) is Some,
    ensures
        handed_over(held, at, since, more) == handed_over(held, at, since, some),
    decreases some,
{
    match found_at(held, at) {
        Look::Whole { nanos, bytes } => {
            let past = Some((at.unwrap().0, (at.unwrap().1 + HEAD + bytes.len()) as u64));
            if since is Some && earlier(moment_at(nanos), since->0) {
                lemma_more_steps(held, past, since, (some - 1) as nat, (more - 1) as nat);
            } else {
                lemma_more_steps(held, past, None, (some - 1) as nat, (more - 1) as nat);
            }
        },
        Look::Oversized { .. } => {},
        Look::Torn => match next_of(names(held), at) {
            Some(name) => {
                lemma_more_steps(
                    held,
                    Some((name, 0u64)),
                    since,
                    (some - 1) as nat,
                    (more - 1) as nat,
                );
            },
            None => {},
        },
    }
}

/// A frame written down and read back is the frame: its bytes, and the moment
/// it was received, where that is outside any leap second. So a reader of a
/// spool and a reader of the wire have the same frames to read.
pub proof fn a_spooled_frame_is_the_frame(frame: FrameView, rest: Seq<u8>)
    requires
        frame.bytes.len() <= LARGEST,
        in_nanosecond_era(frame.received_at),
        0 <= frame.received_at.1 < 1_000_000_000,
    ensures
        look(record(epoch_nanos(frame.received_at), frame.bytes) + rest) is Whole,
        ({
            let found = look(record(epoch_nanos(frame.received_at), frame.bytes) + rest);
            frame == (FrameView { received_at: moment_at(found->nanos), bytes: found->bytes })
        }),
{
    a_record_reads_back((epoch_nanos(frame.received_at), frame.bytes), rest);
    nanoseconds_round_trip(frame.received_at);
}

/// Whether segments hold what a recorder whose clock runs forward leaves in
/// them: each names an hour, hours do not run back, and a segment's records
/// were received before the next segment's hour.
pub open spec fn is_hourly(held: Seq<(Seq<char>, Seq<u8>)>) -> bool {
    &&& forall|k: int| 0 <= k < held.len() ==> opened_at((#[trigger] held[k]).0) is Some
    &&& forall|i: int, j: int|
        0 <= i < j < held.len() ==> !earlier(
            opened_at((#[trigger] held[j]).0)->0,
            opened_at((#[trigger] held[i]).0)->0,
        )
    &&& forall|k: int, r: int|
        0 <= k < held.len() - 1 && 0 <= r < records(held[k].1).len() ==> earlier(
            moment_at((#[trigger] records(held[k].1)[r]).0),
            opened_at(held[k + 1].0)->0,
        )
}

proof fn lemma_latest_at(held: Seq<Seq<char>>, moment: (int, int)) -> (at: int)
    ensures
        latest_opened(held, moment) is Some ==> 0 <= at < held.len() && held[at] == latest_opened(
            held,
            moment,
        )->0 && opened_at(held[at]) is Some && !earlier(moment, opened_at(held[at])->0),
    decreases held.len(),
{
    if held.len() == 0 {
        0
    } else {
        match opened_at(held.last()) {
            Some(opened) if !earlier(moment, opened) => held.len() - 1,
            _ => {
                let at = lemma_latest_at(held.drop_last(), moment);
                if latest_opened(held, moment) is Some {
                    assert(held.drop_last()[at] == held[at]);
                }
                at
            },
        }
    }
}

proof fn lemma_early_records_drop(
    early: Seq<(int, Seq<u8>)>,
    rest: Seq<(int, Seq<u8>)>,
    since: (int, int),
)
    requires
        forall|r: int| 0 <= r < early.len() ==> earlier(moment_at((#[trigger] early[r]).0), since),
    ensures
        from_moment(early + rest, Some(since)) == from_moment(rest, Some(since)),
    decreases early.len(),
{
    if early.len() == 0 {
        assert(early + rest =~= rest);
    } else {
        assert(earlier(moment_at(early[0].0), since));
        assert((early + rest).skip(1) =~= early.skip(1) + rest);
        assert forall|r: int| 0 <= r < early.skip(1).len() implies earlier(
            moment_at((#[trigger] early.skip(1)[r]).0),
            since,
        ) by {
            assert(early.skip(1)[r] == early[r + 1]);
        }
        lemma_early_records_drop(early.skip(1), rest, since);
    }
}

proof fn lemma_start_at_hour(held: Seq<(Seq<char>, Seq<u8>)>, at: int, since: (int, int))
    requires
        in_feed_order(held),
        is_hourly(held),
        0 <= at < held.len(),
        !earlier(since, opened_at(held[at].0)->0),
    ensures
        from_moment(ahead(held, Some((held[at].0, 0u64))), Some(since)) == from_moment(
            ahead(held, None),
            Some(since),
        ),
    decreases at,
{
    if at == 0 {
        moving_on_skips_nothing(held, None);
        assert(names(held)[0] == held[0].0);
    } else {
        let rest = held.skip(1);
        let first = held[0];
        assert forall|i: int, j: int| 0 <= i < j < rest.len() implies sorts_before(
            (#[trigger] rest[i]).0,
            (#[trigger] rest[j]).0,
        ) by {
            assert(rest[i] == held[i + 1] && rest[j] == held[j + 1]);
        }
        assert(is_hourly(rest)) by {
            assert forall|k: int| 0 <= k < rest.len() implies opened_at(
                (#[trigger] rest[k]).0,
            ) is Some by {
                assert(rest[k] == held[k + 1]);
            }
            assert forall|i: int, j: int| 0 <= i < j < rest.len() implies !earlier(
                opened_at((#[trigger] rest[j]).0)->0,
                opened_at((#[trigger] rest[i]).0)->0,
            ) by {
                assert(rest[i] == held[i + 1] && rest[j] == held[j + 1]);
            }
            assert forall|k: int, r: int|
                0 <= k < rest.len() - 1 && 0 <= r < records(rest[k].1).len() implies earlier(
                moment_at((#[trigger] records(rest[k].1)[r]).0),
                opened_at(rest[k + 1].0)->0,
            ) by {
                assert(rest[k] == held[k + 1] && rest[k + 1] == held[k + 2]);
                assert(records(held[k + 1].1)[r] == records(rest[k].1)[r]);
            }
        }
        assert(rest[at - 1] == held[at]);
        lemma_start_at_hour(rest, at - 1, since);
        sorting_is_total(first.0, held[at].0);
        assert(ahead_in(first, Some((held[at].0, 0u64))) =~= Seq::<(int, Seq<u8>)>::empty());
        assert(ahead(held, Some((held[at].0, 0u64))) =~= ahead(
            rest,
            Some((held[at].0, 0u64)),
        ));
        let early = records(first.1);
        assert forall|r: int| 0 <= r < early.len() implies earlier(
            moment_at((#[trigger] early[r]).0),
            since,
        ) by {
            assert(early[r] == records(held[0].1)[r]);
            assert(earlier(moment_at(records(held[0].1)[r].0), opened_at(held[1].0)->0));
            if at > 1 {
                assert(!earlier(opened_at(held[at].0)->0, opened_at(held[1].0)->0));
            }
        }
        lemma_early_records_drop(early, ahead(rest, None), since);
    }
}

/// Starting at a moment misses nothing received since it: a reader that opens
/// the hour holding the moment hands over what one that read every segment
/// from the oldest on would, told to start at that moment.
pub proof fn starting_at_a_moment_misses_nothing_since(
    held: Seq<(Seq<char>, Seq<u8>)>,
    moment: Moment,
    cursor: Option<(Seq<char>, u64)>,
    last_len: u64,
)
    requires
        in_feed_order(held),
        is_hourly(held),
    ensures
        from_moment(
            ahead(held, starts_at(names(held), Start::Since(moment), cursor, last_len)),
            Some(moment@),
        ) == from_moment(ahead(held, None), Some(moment@)),
{
    if held.len() > 0 {
        match latest_opened(names(held), moment@) {
            Some(name) => {
                let at = lemma_latest_at(names(held), moment@);
                assert(held[at].0 == name);
                lemma_start_at_hour(held, at, moment@);
            },
            None => {
                moving_on_skips_nothing(held, None);
                assert(names(held)[0] == held[0].0);
            },
        }
    }
}

/// What a reader has still to hand over of some segments.
pub open spec fn remaining(held: Seq<(Seq<char>, Seq<u8>)>, spool: Spool) -> Seq<(int, Seq<u8>)> {
    from_moment(
        ahead(held, place(spool.at)),
        match spool.since {
            Some(since) => Some(since@),
            None => None,
        },
    )
}

/// Whether what a reader found is what stands there: of its segment, enough to
/// tell what record is at its position, or that the segment is not held; and of
/// the directory, every segment that is.
pub open spec fn sees(held: Seq<(Seq<char>, Seq<u8>)>, spool: Spool, sight: Sight) -> bool {
    match sight {
        Sight::Tail(tail) => spool.at is Some ==> match segment_named(
            held,
            spool.at->0.segment@,
        ) {
            Some(_) => tail is Some && look(tail->0@) == found_at(held, place(spool.at)),
            None => tail is None,
        },
        Sight::Held(list) => texts(list@) == names(held),
        Sight::Failed(_) => true,
    }
}

/// Step by step a reader hands over what lies ahead of it, in order and
/// nothing twice: a frame handed over is the first of what was left, with the
/// moment it was received, and the rest is left then; no other step takes
/// anything away, and the reader waits or stops only where nothing is left.
/// Where a whole record stands at its position it is handed over, unless the
/// reader was told to start later.
pub proof fn each_step_takes_the_first_of_what_is_left(
    held: Seq<(Seq<char>, Seq<u8>)>,
    before: Spool,
    sight: Sight,
    after: Spool,
    step: Step,
)
    requires
        in_feed_order(held),
        forall|k: int| 0 <= k < held.len() ==> (#[trigger] held[k]).1.len() <= u64::MAX,
        steps(before, sight, after, step),
        sees(held, before, sight),
        sight is Held ==> found_at(held, place(before.at)) is Torn,
    ensures
        ({
            let left = remaining(held, before);
            match step {
                Step::Hand(Ok(frame)) => {
                    &&& left.len() > 0
                    &&& frame.received_at@ == moment_at(left[0].0)
                    &&& frame.bytes@ == left[0].1
                    &&& remaining(held, after) == left.skip(1)
                    &&& after.since is None
                },
                Step::Hand(Err(_)) => {
                    &&& remaining(held, after) == left
                    &&& sight is Failed || found_at(held, place(before.at)) is Oversized
                },
                Step::Look => remaining(held, after) == left,
                Step::List => remaining(held, after) == left && sight is Tail,
                Step::Wait => left.len() == 0 && after.at == before.at && before.replay
                    == Replay::Follow,
                Step::End => left.len() == 0 && after.at == before.at && before.replay
                    == Replay::ToEnd,
            }
        }),
        sight is Tail && found_at(held, place(before.at)) is Whole ==> {
            let found = found_at(held, place(before.at));
            if before.since is Some && earlier(moment_at(found->nanos), before.since->0@) {
                step is Look && after.since == before.since
            } else {
                step matches Step::Hand(Ok(frame)) && frame.bytes@ == found->bytes
                    && frame.received_at@ == moment_at(found->nanos)
            }
        },
        sight is Tail && found_at(held, place(before.at)) is Torn ==> step is List,
        after.dir == before.dir && after.name == before.name && after.replay == before.replay
            && after.galaxy == before.galaxy,
{
    let at = place(before.at);
    let all = ahead(held, at);
    match sight {
        Sight::Tail(_) => match found_at(held, at) {
            Look::Whole { nanos, bytes } => {
                let (segment, offset) = at.unwrap();
                let i = lemma_segment_named(held, segment);
                a_record_taken_leaves_the_rest(held, i, offset);
                assert(all == seq![(nanos, bytes)] + ahead(held, place(after.at)));
                assert(all.skip(1) == ahead(held, place(after.at)));
            },
            _ => {},
        },
        Sight::Held(_) => {
            if at is Some {
                let i = lemma_segment_named(held, at.unwrap().0);
                assert forall|k: int|
                    0 <= k < held.len() && (#[trigger] held[k]).0 == at.unwrap().0 implies ahead_in(
                    held[k],
                    at,
                ).len() == 0 by {
                    assert(k == i);
                }
            }
            moving_on_skips_nothing(held, at);
        },
        Sight::Failed(_) => {},
    }
}

} // verus!
