//! Reading a recorded feed back.
//!
//! A [`Spool`] decides and the file system is read around it: it says whether
//! it wants the bytes at its position or the names of the segments held, takes
//! what was found, and hands over frames.

use crate::error::{Error, Fault, FaultKind};
use crate::frame::{Frame, FrameView};
use crate::galaxy::Galaxy;
use crate::moment::{earlier, moment_at, Moment};
use crate::position::{place, Position};
use crate::spool::record::{
    decode, kept_length, look, records, whole_records_stand_alone, Found, Look, HEAD,
};
use crate::spool::segment::{opened, opened_at, SUFFIX};
use crate::text::{
    a_part_stands_in_the_whole, decimal, decimal_text, has_text, holds, less, sorting_is_total,
    sorting_is_transitive, sorts_before, texts,
};
use vstd::prelude::*;
use vstd::string::StringExecFns;

verus! {

/// Where a reader starts when it is opened.
#[derive(Clone, Debug, PartialEq, Eq)]
pub enum Start {
    /// From this consumer's own cursor, by name, and from the end of what is
    /// recorded where it has none
    ///
    /// A fresh follower follows rather than replaying two days unasked.
    Cursor(String),
    /// From the oldest record still held.
    Earliest,
    /// From the end: only what arrives after this was opened.
    Latest,
    /// From the first record received at or after a moment.
    Since(Moment),
}

/// What a reader does when it reaches the end of what is recorded.
#[derive(Copy, Clone, Debug, PartialEq, Eq, Structural)]
pub enum Replay {
    /// Wait for more, the way a subscription does. The feed never ends.
    Follow,
    /// Stop. The feed ends, which is what a test or a one-off pass over a
    /// recorded hour wants.
    ToEnd,
}

/// A recorded feed: what a reader of one remembers
#[derive(Debug)]
pub struct Spool {
    /// The directory, for what is said when its files fail.
    pub dir: String,
    /// This consumer's name, where it was opened against a cursor. Only a
    /// named reader may write one.
    pub name: Option<String>,
    /// Where the next record starts. [`None`] is "at the oldest segment there
    /// is", which is not known until one exists.
    pub at: Option<Position>,
    /// Whether the end of what is recorded is waited at.
    pub replay: Replay,
    /// Records received before this are skipped. Only [`Start::Since`] sets
    /// it, and only until the first record it keeps.
    pub since: Option<Moment>,
    /// Which galaxy's data to hand over; the live one unless asked otherwise.
    pub galaxy: Galaxy,
}

/// The end of everything recorded, which is where a fresh follower starts.
pub open spec fn end_of(held: Seq<Seq<char>>, last_len: u64) -> (Seq<char>, u64) {
    if held.len() == 0 {
        (Seq::empty(), 0)
    } else {
        (held.last(), last_len)
    }
}

/// The latest segment opened at or before a moment.
pub open spec fn latest_opened(held: Seq<Seq<char>>, moment: (int, int)) -> Option<Seq<char>>
    decreases held.len(),
{
    if held.len() == 0 {
        None
    } else {
        match opened_at(held.last()) {
            Some(at) if !earlier(moment, at) => Some(held.last()),
            _ => latest_opened(held.drop_last(), moment),
        }
    }
}

/// Where a reader starts: at its cursor, at the end, at the front of the hour
/// that holds a moment, or wherever the oldest segment turns out to be.
pub open spec fn starts_at(
    held: Seq<Seq<char>>,
    start: Start,
    cursor: Option<(Seq<char>, u64)>,
    last_len: u64,
) -> Option<(Seq<char>, u64)> {
    match start {
        Start::Cursor(_) => match cursor {
            Some(at) => Some(at),
            None => Some(end_of(held, last_len)),
        },
        Start::Earliest => None,
        Start::Latest => Some(end_of(held, last_len)),
        Start::Since(moment) => match latest_opened(held, moment@) {
            Some(name) => Some((name, 0)),
            None => if held.len() > 0 {
                Some((held[0], 0))
            } else {
                None
            },
        },
    }
}

/// Whether a position names a segment that has been pruned: one no longer
/// held, from before everything that is. A position with no segment is where a
/// reader stands that found nothing recorded, and names nothing that could go.
pub open spec fn pruned(held: Seq<Seq<char>>, at: Option<(Seq<char>, u64)>) -> bool {
    match at {
        Some(at) => at.0.len() > 0 && held.len() > 0 && !held.contains(at.0) && sorts_before(
            at.0,
            held[0],
        ),
        None => false,
    }
}

/// What a reader whose position has been pruned is told.
pub open spec fn pruned_message(segment: Seq<char>, oldest: Seq<char>) -> Seq<char> {
    "the spool no longer holds "@ + segment + SUFFIX@
        + ", which is where this reader stopped; the oldest it holds is "@ + oldest + SUFFIX@
}

/// What is said of a record whose head claims more than a frame may hold.
pub open spec fn oversized_message(at: (Seq<char>, u64), len: nat) -> Seq<char> {
    at.0 + SUFFIX@ + " at "@ + decimal(at.1 as nat) + ": a record claiming "@ + decimal(len)
        + " bytes"@
}

/// The first segment after the one being read, or the oldest where none is.
pub open spec fn next_of(held: Seq<Seq<char>>, at: Option<(Seq<char>, u64)>) -> Option<Seq<char>>
    decreases held.len(),
{
    if held.len() == 0 {
        None
    } else if at is None || sorts_before(at.unwrap().0, held[0]) {
        Some(held[0])
    } else {
        next_of(held.skip(1), at)
    }
}

/// Whether a reader opened so is what opening it comes to: standing where it
/// starts, unless that has been pruned.
pub open spec fn opens(
    dir: Seq<char>,
    held: Seq<Seq<char>>,
    start: Start,
    replay: Replay,
    cursor: Option<(Seq<char>, u64)>,
    last_len: u64,
    opened: Result<Spool, Fault>,
) -> bool {
    let at = starts_at(held, start, cursor, last_len);
    match opened {
        Ok(spool) => {
            &&& !pruned(held, at)
            &&& spool.dir@ == dir
            &&& place(spool.at) == at
            &&& spool.replay == replay
            &&& spool.galaxy == Galaxy::LIVE
            &&& match start {
                Start::Cursor(name) => spool.name == Some(name),
                _ => spool.name is None,
            }
            &&& match start {
                Start::Since(moment) => spool.since == Some(moment),
                _ => spool.since is None,
            }
        },
        Err(fault) => {
            &&& pruned(held, at)
            &&& fault.kind == FaultKind::NotFound
            &&& fault.message@ == pruned_message(at.unwrap().0, held[0])
        },
    }
}

/// The end of everything recorded.
pub fn end(held: &Vec<String>, last_len: u64) -> (at: Position)
    ensures
        at@ == end_of(texts(held@), last_len),
{
    if held.len() == 0 {
        let segment = String::new();
        assert(segment@ == Seq::<char>::empty());
        return Position { segment, offset: 0 };
    }
    let last = &held[held.len() - 1];
    assert(texts(held@).last() == held@.last()@);
    Position { segment: last.clone(), offset: last_len }
}

/// The position at the front of the hour that holds a moment.
fn hour_holding(held: &Vec<String>, moment: Moment) -> (at: Option<Position>)
    ensures
        place(at) == starts_at(texts(held@), Start::Since(moment), None, 0),
{
    let ghost names = texts(held@);
    let mut left: usize = held.len();
    assert(names.take(left as int) == names);
    while left > 0
        invariant
            left <= held.len(),
            names == texts(held@),
            latest_opened(names, moment@) == latest_opened(names.take(left as int), moment@),
        decreases left,
    {
        let name = &held[left - 1];
        assert(names.take(left as int).last() == name@);
        assert(names.take(left as int).drop_last() == names.take(left - 1));
        if let Some(at) = opened(name.as_str()) {
            if !moment.before(at) {
                return Some(Position { segment: name.clone(), offset: 0 });
            }
        }
        left -= 1;
    }
    assert(latest_opened(names.take(0), moment@) is None);
    if held.len() == 0 {
        None
    } else {
        assert(names[0] == held@[0]@);
        Some(Position { segment: held[0].clone(), offset: 0 })
    }
}

impl Spool {
    /// Read a recorded feed back
    ///
    /// The same messages the live feed carried, in the same order. `held` is
    /// every segment of `dir`, oldest first; `cursor` is the position the
    /// consumer named by [`Start::Cursor`] last committed, and is not looked
    /// at for any other start; `last_len` is where the whole records of the
    /// newest segment end, which is where a reader starts that wants none of
    /// them.
    ///
    /// A cursor naming a segment that has been pruned is the one case a reader
    /// must not paper over: it is a hole, and reading on from the oldest
    /// segment held would hide it.
    pub fn open(
        dir: &str,
        held: &Vec<String>,
        start: Start,
        replay: Replay,
        cursor: Option<Position>,
        last_len: u64,
    ) -> (opened: Result<Spool, Fault>)
        ensures
            opens(dir@, texts(held@), start, replay, place(cursor), last_len, opened),
    {
        let since = match &start {
            Start::Since(moment) => Some(*moment),
            _ => None,
        };
        let (name, at): (Option<String>, Option<Position>) = match start {
            Start::Cursor(name) => {
                // No cursor is a fresh follower, and a fresh follower follows:
                // replaying two days of spool at somebody who only asked to be
                // current is not a kindness.
                let at = match cursor {
                    Some(at) => at,
                    None => end(held, last_len),
                };
                (Some(name), Some(at))
            },
            Start::Earliest => (None, None),
            Start::Latest => (None, Some(end(held, last_len))),
            Start::Since(moment) => (None, hour_holding(held, moment)),
        };
        if let Some(at) = &at {
            if !at.segment.as_str().is_empty() && held.len() > 0 && !has_text(
                held,
                at.segment.as_str(),
            ) {
                let oldest = &held[0];
                assert(texts(held@)[0] == oldest@);
                if less(at.segment.as_str(), oldest.as_str()) {
                    let mut message = "the spool no longer holds ".to_owned();
                    message.append(at.segment.as_str());
                    message.append(SUFFIX);
                    message.append(
                        ", which is where this reader stopped; the oldest it holds is ",
                    );
                    message.append(oldest.as_str());
                    message.append(SUFFIX);
                    return Err(Fault { kind: FaultKind::NotFound, message });
                }
            }
        }
        Ok(Spool { dir: dir.to_owned(), name, at, replay, since, galaxy: Galaxy::LIVE })
    }

    /// Commit this reader's position under `name`
    ///
    /// For a consumer that opened somewhere other than its cursor -- a replay
    /// of a recorded hour, or a first run told to start [`Start::Earliest`] --
    /// and still wants to keep its place from here on. [`Start::Cursor`] names
    /// it already.
    pub fn named(self, name: String) -> (spool: Self)
        ensures
            spool == self.as_named(name),
    {
        let Spool { dir, at, replay, since, galaxy, .. } = self;
        Spool { dir, name: Some(name), at, replay, since, galaxy }
    }

    /// Choose which galaxy's data to hand over
    ///
    /// [`Galaxy::LIVE`] by default, and applied on the way *out*: the recorder
    /// writes test frames down like any other, so a spool cannot leak a test
    /// galaxy into a sink by having been recorded with one filter and read with
    /// another.
    pub fn galaxy(self, galaxy: Galaxy) -> (spool: Self)
        ensures
            spool == self.of_galaxy(galaxy),
    {
        let Spool { dir, name, at, replay, since, .. } = self;
        Spool { dir, name, at, replay, since, galaxy }
    }

    /// Which galaxy's data this hands over.
    pub fn showing(&self) -> (galaxy: Galaxy)
        ensures
            galaxy == self.galaxy,
    {
        self.galaxy
    }

    /// Where a restart would resume.
    pub fn resume(&self) -> (at: Option<Position>)
        ensures
            at == self.at,
    {
        match &self.at {
            Some(at) => Some(at.clone()),
            None => None,
        }
    }

    /// This reader under a name.
    pub open spec fn as_named(self, name: String) -> Spool {
        Spool { name: Some(name), ..self }
    }

    /// This reader with a galaxy chosen.
    pub open spec fn of_galaxy(self, galaxy: Galaxy) -> Spool {
        Spool { galaxy, ..self }
    }

    /// Whether this is what committing writes.
    pub open spec fn commits(self, cursor: Option<(String, Position)>) -> bool {
        match cursor {
            Some((name, at)) => self.name == Some(name) && self.at == Some(at),
            None => self.name is None || self.at is None,
        }
    }

    /// What committing writes: this consumer's name and its position, for a
    /// reader that was named one and has one
    ///
    /// **After the work it covers is durable, never before.** The cursor is
    /// what a restart trusts, so one written ahead of a publish turns a kill
    /// into a hole where it should be a replay.
    pub fn commit(&self) -> (cursor: Option<(String, Position)>)
        ensures
            self.commits(cursor),
    {
        match (&self.name, &self.at) {
            (Some(name), Some(at)) => Some((name.clone(), at.clone())),
            _ => None,
        }
    }

    /// The next whole record at the current position, or nothing where there
    /// is not one yet
    ///
    /// `tail` is the segment from the current offset on, or as much of it as
    /// its record runs to, and nothing where the segment is not there.
    pub fn record(&mut self, tail: Option<&[u8]>) -> (read: Result<Option<Frame>, Fault>)
        requires
            old(self).at is Some && tail is Some ==> old(self).at->0.offset + tail->0@.len()
                <= u64::MAX,
        ensures
            final(self).dir == old(self).dir,
            final(self).name == old(self).name,
            final(self).replay == old(self).replay,
            final(self).since == old(self).since,
            final(self).galaxy == old(self).galaxy,
            match read {
                Ok(Some(frame)) => {
                    &&& old(self).at is Some && tail is Some
                    &&& look(tail->0@) is Whole
                    &&& frame.received_at@ == moment_at(look(tail->0@)->nanos)
                    &&& frame.bytes@ == look(tail->0@)->bytes
                    &&& place(final(self).at) == Some(
                        (
                            old(self).at->0.segment@,
                            (old(self).at->0.offset + HEAD + frame.bytes@.len()) as u64,
                        ),
                    )
                    &&& old(self).at->0.offset + HEAD + frame.bytes@.len() <= u64::MAX
                },
                Ok(None) => {
                    &&& old(self).at is None || tail is None || look(tail->0@) is Torn
                    &&& place(final(self).at) == place(old(self).at)
                },
                Err(fault) => {
                    &&& old(self).at is Some && tail is Some
                    &&& look(tail->0@) is Oversized
                    &&& fault.kind == FaultKind::InvalidData
                    &&& fault.message@ == oversized_message(
                        old(self).at->0@,
                        look(tail->0@)->len,
                    )
                    &&& place(final(self).at) == place(old(self).at)
                },
            },
    {
        let at = match &self.at {
            Some(at) => at.clone(),
            None => {
                return Ok(None);
            },
        };
        let tail = match tail {
            Some(tail) => tail,
            None => {
                return Ok(None);
            },
        };
        match decode(tail) {
            // A torn tail: there is no record here yet. The offset does not
            // move and the next look starts where this one did.
            Found::Torn => Ok(None),
            Found::Oversized(len) => {
                let mut message = at.segment.clone();
                message.append(SUFFIX);
                message.append(" at ");
                let offset = decimal_text(at.offset as u128);
                message.append(offset.as_str());
                message.append(": a record claiming ");
                let claimed = decimal_text(len as u128);
                message.append(claimed.as_str());
                message.append(" bytes");
                Err(Fault { kind: FaultKind::InvalidData, message })
            },
            Found::Whole(nanos, bytes) => {
                let received_at = Moment::from_nanos(nanos);
                let offset: u64 = at.offset + HEAD as u64 + bytes.len() as u64;
                self.at = Some(Position { segment: at.segment, offset });
                Ok(Some(Frame { received_at, bytes }))
            },
        }
    }

    /// Move to the segment after the one being read, where there is one
    ///
    /// Answers whether it moved. A torn tail in a segment that is no longer
    /// being written is a partial record nothing will ever finish, and stepping
    /// past it is the only way on.
    pub fn next_segment(&mut self, held: &Vec<String>) -> (moved: bool)
        ensures
            final(self).dir == old(self).dir,
            final(self).name == old(self).name,
            final(self).replay == old(self).replay,
            final(self).since == old(self).since,
            final(self).galaxy == old(self).galaxy,
            match next_of(texts(held@), place(old(self).at)) {
                Some(name) => moved && place(final(self).at) == Some((name, 0u64)),
                None => !moved && final(self).at == old(self).at,
            },
    {
        let ghost names = texts(held@);
        let ghost from = place(self.at);
        let mut i: usize = 0;
        assert(names.skip(0) == names);
        while i < held.len()
            invariant
                i <= held.len(),
                names == texts(held@),
                from == place(self.at),
                *self == *old(self),
                next_of(names, from) == next_of(names.skip(i as int), from),
            decreases held.len() - i,
        {
            let name = &held[i];
            assert(names.skip(i as int)[0] == name@);
            let later = match &self.at {
                Some(at) => less(at.segment.as_str(), name.as_str()),
                None => true,
            };
            if later {
                self.at = Some(Position { segment: name.clone(), offset: 0 });
                return true;
            }
            assert(names.skip(i as int).skip(1) == names.skip(i + 1));
            i += 1;
        }
        false
    }

    /// Takes what was found and says what comes next: the next record, walking
    /// on to the next segment at the end of one and waiting or stopping at the
    /// end of them all
    ///
    /// A read begins with [`Step::Look`], and goes on as each answer says until
    /// a frame is handed over or the feed ends.
    pub fn frame(&mut self, sight: Sight) -> (step: Step)
        requires
            sight matches Sight::Tail(Some(tail)) ==> old(self).at is Some ==> (
            old(self).at->0.offset + tail@.len()) <= u64::MAX,
        ensures
            steps(*old(self), sight, *final(self), step),
    {
        match sight {
            Sight::Failed(source) => Step::Hand(
                Err(Error::Spool { path: self.dir.clone(), source }),
            ),
            Sight::Held(held) => {
                // A later segment existing means this one is finished --
                // including its torn tail, which nothing is going to complete.
                if self.next_segment(&held) {
                    Step::Look
                } else {
                    match self.replay {
                        Replay::ToEnd => Step::End,
                        Replay::Follow => Step::Wait,
                    }
                }
            },
            Sight::Tail(tail) => {
                let tail: Option<&[u8]> = match &tail {
                    Some(tail) => Some(tail.as_slice()),
                    None => None,
                };
                match self.record(tail) {
                    Err(source) => Step::Hand(Err(Error::Spool { path: self.dir.clone(), source })),
                    Ok(None) => Step::List,
                    Ok(Some(frame)) => {
                        // Skipped before anything is read *of* the frame: the
                        // start is about when a message was received, which the
                        // record says and the envelope does not.
                        let early = match self.since {
                            Some(since) => frame.received_at.before(since),
                            None => false,
                        };
                        if early {
                            Step::Look
                        } else {
                            self.since = None;
                            Step::Hand(Ok(frame))
                        }
                    },
                }
            },
        }
    }
}

/// What was found where a reader looked
#[derive(Debug)]
pub enum Sight {
    /// The segment being read, from the current offset on, or nothing where
    /// the segment is not there.
    Tail(Option<Vec<u8>>),
    /// Every segment held, oldest first.
    Held(Vec<String>),
    /// The file system would not say.
    Failed(Fault),
}

/// What a reader does next
#[derive(Debug)]
pub enum Step {
    /// Look at the current position for a record.
    Look,
    /// List the segments held.
    List,
    /// Wait a little, then look again.
    Wait,
    /// Stop: there is nothing more.
    End,
    /// Hand this over.
    Hand(Result<Frame, Error>),
}

/// Whether a reader comes to another, and does this next, by what it found
/// where it looked.
pub open spec fn steps(before: Spool, sight: Sight, after: Spool, step: Step) -> bool {
    &&& after.dir == before.dir
    &&& after.name == before.name
    &&& after.replay == before.replay
    &&& after.galaxy == before.galaxy
    &&& match sight {
        Sight::Failed(fault) => {
            &&& after.since == before.since
            &&& place(after.at) == place(before.at)
            &&& step matches Step::Hand(Err(Error::Spool { path, source })) && path
                == before.dir && source == fault
        },
        Sight::Held(held) => {
            &&& after.since == before.since
            &&& match next_of(texts(held@), place(before.at)) {
                Some(name) => step is Look && place(after.at) == Some((name, 0u64)),
                None => {
                    &&& after.at == before.at
                    &&& match before.replay {
                        Replay::ToEnd => step is End,
                        Replay::Follow => step is Wait,
                    }
                },
            }
        },
        Sight::Tail(tail) => if before.at is None || tail is None || look(
            tail.unwrap()@,
        ) is Torn {
            &&& step is List
            &&& after.since == before.since
            &&& place(after.at) == place(before.at)
        } else if look(tail.unwrap()@) is Oversized {
            &&& after.since == before.since
            &&& place(after.at) == place(before.at)
            &&& step matches Step::Hand(Err(Error::Spool { path, source })) && path
                == before.dir && source.kind == FaultKind::InvalidData
                && source.message@ == oversized_message(
                before.at->0@,
                look(tail.unwrap()@)->len,
            )
        } else {
            let nanos = look(tail.unwrap()@)->nanos;
            let bytes = look(tail.unwrap()@)->bytes;
            &&& place(after.at) == Some(
                (
                    before.at->0.segment@,
                    (before.at->0.offset + HEAD + bytes.len()) as u64,
                ),
            )
            &&& before.at->0.offset + HEAD + bytes.len() <= u64::MAX
            &&& if skipped(before.since, moment_at(nanos)) {
                step is Look && after.since == before.since
            } else {
                &&& after.since is None
                &&& step matches Step::Hand(Ok(frame)) && frame@ == (FrameView {
                    received_at: moment_at(nanos),
                    bytes,
                })
            }
        },
    }
}

/// Whether a record received at a moment is skipped by a reader told to start
/// later.
pub open spec fn skipped(since: Option<Moment>, received_at: (int, int)) -> bool {
    match since {
        Some(since) => earlier(received_at, since@),
        None => false,
    }
}

/// Whether segments stand in order, each after the one before it.
pub open spec fn in_feed_order(held: Seq<(Seq<char>, Seq<u8>)>) -> bool {
    forall|i: int, j: int|
        0 <= i < j < held.len() ==> sorts_before((#[trigger] held[i]).0, (#[trigger] held[j]).0)
}

/// The names of some segments.
pub open spec fn names(held: Seq<(Seq<char>, Seq<u8>)>) -> Seq<Seq<char>> {
    Seq::new(held.len(), |i: int| held[i].0)
}

/// The records of one segment that lie ahead of a position.
pub open spec fn ahead_in(
    segment: (Seq<char>, Seq<u8>),
    at: Option<(Seq<char>, u64)>,
) -> Seq<(int, Seq<u8>)> {
    match at {
        None => records(segment.1),
        Some(at) => if segment.0 == at.0 {
            if at.1 <= segment.1.len() {
                records(segment.1.skip(at.1 as int))
            } else {
                Seq::empty()
            }
        } else if sorts_before(at.0, segment.0) {
            records(segment.1)
        } else {
            Seq::empty()
        },
    }
}

/// The records that lie ahead of a position, in feed order.
pub open spec fn ahead(held: Seq<(Seq<char>, Seq<u8>)>, at: Option<(Seq<char>, u64)>) -> Seq<
    (int, Seq<u8>),
>
    decreases held.len(),
{
    if held.len() == 0 {
        Seq::empty()
    } else {
        ahead_in(held[0], at) + ahead(held.skip(1), at)
    }
}

proof fn lemma_rest_in_order(held: Seq<(Seq<char>, Seq<u8>)>)
    requires
        in_feed_order(held),
        held.len() > 0,
    ensures
        in_feed_order(held.skip(1)),
        names(held.skip(1)) == names(held).skip(1),
        forall|k: int| 0 <= k < held.skip(1).len() ==> sorts_before(
            held[0].0,
            (#[trigger] held.skip(1)[k]).0,
        ),
{
    let rest = held.skip(1);
    assert forall|i: int, j: int| 0 <= i < j < rest.len() implies sorts_before(
        (#[trigger] rest[i]).0,
        (#[trigger] rest[j]).0,
    ) by {
        assert(rest[i] == held[i + 1] && rest[j] == held[j + 1]);
    }
    assert forall|k: int| 0 <= k < rest.len() implies sorts_before(
        held[0].0,
        (#[trigger] rest[k]).0,
    ) by {
        assert(rest[k] == held[k + 1]);
    }
}

proof fn lemma_offset_elsewhere(
    held: Seq<(Seq<char>, Seq<u8>)>,
    segment: Seq<char>,
    one: u64,
    other: u64,
)
    requires
        forall|k: int| 0 <= k < held.len() ==> (#[trigger] held[k]).0 != segment,
    ensures
        ahead(held, Some((segment, one))) == ahead(held, Some((segment, other))),
    decreases held.len(),
{
    if held.len() > 0 {
        assert(held[0].0 != segment);
        assert forall|k: int| 0 <= k < held.skip(1).len() implies (
        #[trigger] held.skip(1)[k]).0 != segment by {
            assert(held.skip(1)[k] == held[k + 1]);
        }
        lemma_offset_elsewhere(held.skip(1), segment, one, other);
    }
}

/// Taking a whole record moves a reader past that record and no other: what
/// lay ahead of it was that record, and what lies ahead of it now is the rest.
pub proof fn a_record_taken_leaves_the_rest(
    held: Seq<(Seq<char>, Seq<u8>)>,
    i: int,
    offset: u64,
)
    requires
        in_feed_order(held),
        0 <= i < held.len(),
        offset <= held[i].1.len(),
        look(held[i].1.skip(offset as int)) is Whole,
        offset + HEAD + look(held[i].1.skip(offset as int))->bytes.len() <= u64::MAX,
    ensures
        ({
            let found = look(held[i].1.skip(offset as int));
            let past = (offset + HEAD + found->bytes.len()) as u64;
            ahead(held, Some((held[i].0, offset))) == seq![(found->nanos, found->bytes)] + ahead(
                held,
                Some((held[i].0, past)),
            )
        }),
    decreases held.len(),
{
    let segment = held[i].0;
    let found = look(held[i].1.skip(offset as int));
    let past = (offset + HEAD + found->bytes.len()) as u64;
    lemma_rest_in_order(held);
    if i == 0 {
        assert forall|k: int| 0 <= k < held.skip(1).len() implies (
        #[trigger] held.skip(1)[k]).0 != segment by {
            sorting_is_total(segment, held.skip(1)[k].0);
        }
        lemma_offset_elsewhere(held.skip(1), segment, offset, past);
        let tail = held[0].1.skip(offset as int);
        assert(tail.skip(HEAD + found->bytes.len()) == held[0].1.skip(past as int));
        assert(ahead_in(held[0], Some((segment, offset))) == seq![
            (found->nanos, found->bytes),
        ] + ahead_in(held[0], Some((segment, past))));
    } else {
        assert(held.skip(1)[i - 1] == held[i]);
        sorting_is_total(held[0].0, segment);
        a_record_taken_leaves_the_rest(held.skip(1), i - 1, offset);
        assert(ahead_in(held[0], Some((segment, offset))) == Seq::<(int, Seq<u8>)>::empty());
        assert(ahead_in(held[0], Some((segment, past))) == Seq::<(int, Seq<u8>)>::empty());
        assert(ahead(held, Some((segment, offset))) == ahead(
            held.skip(1),
            Some((segment, offset)),
        ));
        assert(ahead(held, Some((segment, past))) == ahead(held.skip(1), Some((segment, past))));
    }
}

/// Moving on from a segment with no whole record left in it skips nothing:
/// what lies ahead of the segment moved to is what lay ahead, and where there
/// is none to move to nothing did.
pub proof fn moving_on_skips_nothing(
    held: Seq<(Seq<char>, Seq<u8>)>,
    at: Option<(Seq<char>, u64)>,
)
    requires
        in_feed_order(held),
        at is Some ==> forall|k: int|
            0 <= k < held.len() && (#[trigger] held[k]).0 == at.unwrap().0 ==> ahead_in(
                held[k],
                at,
            ).len() == 0,
    ensures
        match next_of(names(held), at) {
            Some(name) => ahead(held, at) == ahead(held, Some((name, 0u64))),
            None => ahead(held, at).len() == 0,
        },
    decreases held.len(),
{
    if held.len() > 0 {
        lemma_rest_in_order(held);
        let first = held[0];
        assert(names(held)[0] == first.0);
        if at is None || sorts_before(at.unwrap().0, first.0) {
            if at is Some {
                sorting_is_total(at.unwrap().0, first.0);
            }
            assert(first.1.skip(0) == first.1);
            assert(ahead_in(first, at) == ahead_in(first, Some((first.0, 0u64))));
            lemma_all_later(held.skip(1), at, Some((first.0, 0u64)));
        } else {
            assert(ahead_in(first, at).len() == 0);
            assert forall|k: int|
                0 <= k < held.skip(1).len() && (#[trigger] held.skip(1)[k]).0
                    == at.unwrap().0 implies ahead_in(held.skip(1)[k], at).len() == 0 by {
                assert(held.skip(1)[k] == held[k + 1]);
            }
            moving_on_skips_nothing(held.skip(1), at);
            assert(ahead(held, at) == ahead(held.skip(1), at));
            match next_of(names(held), at) {
                Some(name) => {
                    lemma_next_is_held(names(held.skip(1)), at);
                    let k = choose|k: int|
                        0 <= k < names(held.skip(1)).len() && names(held.skip(1))[k] == name;
                    assert(held.skip(1)[k].0 == name);
                    sorting_is_total(first.0, name);
                    assert(ahead_in(first, Some((name, 0u64))).len() == 0);
                    assert(ahead(held, Some((name, 0u64))) == ahead(
                        held.skip(1),
                        Some((name, 0u64)),
                    ));
                },
                None => {},
            }
        }
    }
}

proof fn lemma_next_is_held(held: Seq<Seq<char>>, at: Option<(Seq<char>, u64)>)
    ensures
        next_of(held, at) is Some ==> held.contains(next_of(held, at)->0),
    decreases held.len(),
{
    if held.len() > 0 && !(at is None || sorts_before(at.unwrap().0, held[0])) {
        lemma_next_is_held(held.skip(1), at);
        if next_of(held, at) is Some {
            let name = next_of(held, at)->0;
            let k = choose|k: int| 0 <= k < held.skip(1).len() && held.skip(1)[k] == name;
            assert(held[k + 1] == name);
        }
    } else if held.len() > 0 {
        assert(held[0] == next_of(held, at)->0);
    }
}

proof fn lemma_all_later(
    held: Seq<(Seq<char>, Seq<u8>)>,
    one: Option<(Seq<char>, u64)>,
    other: Option<(Seq<char>, u64)>,
)
    requires
        other is Some,
        one is Some ==> sorts_before(one.unwrap().0, other.unwrap().0),
        forall|k: int|
            0 <= k < held.len() ==> sorts_before(other.unwrap().0, (#[trigger] held[k]).0),
    ensures
        ahead(held, one) == ahead(held, other),
    decreases held.len(),
{
    if held.len() > 0 {
        let first = held[0];
        sorting_is_total(other.unwrap().0, first.0);
        if one is Some {
            sorting_is_transitive(one.unwrap().0, other.unwrap().0, first.0);
            sorting_is_total(one.unwrap().0, first.0);
        }
        assert forall|k: int| 0 <= k < held.skip(1).len() implies sorts_before(
            other.unwrap().0,
            (#[trigger] held.skip(1)[k]).0,
        ) by {
            assert(held.skip(1)[k] == held[k + 1]);
        }
        lemma_all_later(held.skip(1), one, other);
    }
}

/// A reader opened at the position another stopped at has the same records
/// ahead of it: a kill replays the tail that was not committed, and skips
/// nothing.
pub proof fn a_cursor_resumes_where_it_stopped(
    held: Seq<(Seq<char>, Seq<u8>)>,
    name: String,
    stopped: (Seq<char>, u64),
    last_len: u64,
)
    ensures
        ahead(held, starts_at(names(held), Start::Cursor(name), Some(stopped), last_len)) == ahead(
            held,
            Some(stopped),
        ),
{
}

/// A reader that found nothing recorded has every record held ahead of it once
/// there are some, and so has one opened at the cursor it committed then, which
/// is not refused.
pub proof fn a_cursor_on_an_empty_spool_holds(
    held: Seq<(Seq<char>, Seq<u8>)>,
    start: Start,
    last_len: u64,
)
    requires
        start is Latest || start is Cursor,
    ensures
        ({
            let stopped = starts_at(Seq::empty(), start, None, last_len);
            &&& stopped == Some((Seq::<char>::empty(), 0u64))
            &&& !pruned(names(held), stopped)
            &&& ahead(held, stopped) == ahead(held, None)
        }),
{
    lemma_nothing_taken(held);
}

proof fn lemma_nothing_taken(held: Seq<(Seq<char>, Seq<u8>)>)
    ensures
        ahead(held, Some((Seq::<char>::empty(), 0u64))) == ahead(held, None),
    decreases held.len(),
{
    if held.len() > 0 {
        let (name, bytes) = held[0];
        let from = Some((Seq::<char>::empty(), 0u64));
        lemma_nothing_taken(held.skip(1));
        assert(bytes.skip(0) == bytes);
        if name.len() == 0 {
            assert(name == Seq::<char>::empty());
        }
        assert(ahead_in(held[0], from) == ahead_in(held[0], None));
    }
}

/// A reader opened at the earliest record has every record ahead of it.
pub proof fn the_earliest_start_replays_everything(
    held: Seq<(Seq<char>, Seq<u8>)>,
    cursor: Option<(Seq<char>, u64)>,
    last_len: u64,
    i: int,
)
    requires
        0 <= i < held.len(),
    ensures
        ahead_in(held[i], starts_at(names(held), Start::Earliest, cursor, last_len)) == records(
            held[i].1,
        ),
{
}

/// A reader opened at the end of what is recorded, and a consumer with no
/// cursor, have no record ahead of them.
pub proof fn a_fresh_follower_replays_nothing(
    held: Seq<(Seq<char>, Seq<u8>)>,
    start: Start,
    last_len: u64,
)
    requires
        in_feed_order(held),
        start is Latest || start is Cursor,
        held.len() > 0 ==> last_len == kept_length(held.last().1),
    ensures
        ahead(held, starts_at(names(held), start, None, last_len)).len() == 0,
{
    let at = starts_at(names(held), start, None, last_len);
    if held.len() > 0 {
        assert(names(held).last() == held.last().0);
        let tail = held.last().1;
        whole_records_stand_alone(tail);
        assert(tail.skip(tail.len() as int) == Seq::<u8>::empty());
        assert(look(Seq::<u8>::empty()) is Torn);
        assert forall|k: int|
            0 <= k < held.len() && (#[trigger] held[k]).0 == at.unwrap().0 implies ahead_in(
            held[k],
            at,
        ).len() == 0 by {
            if k < held.len() - 1 {
                sorting_is_total(held[k].0, held.last().0);
            }
        }
        moving_on_skips_nothing(held, at);
        if next_of(names(held), at) is Some {
            lemma_next_sorts_later(names(held), at);
            lemma_next_is_held(names(held), at);
            let name = next_of(names(held), at)->0;
            let k = choose|k: int| 0 <= k < names(held).len() && names(held)[k] == name;
            assert(held[k].0 == name);
            if k < held.len() - 1 {
                assert(sorts_before(held[k].0, held.last().0));
            }
            sorting_is_total(name, held.last().0);
        }
    }
}

proof fn lemma_next_sorts_later(held: Seq<Seq<char>>, at: Option<(Seq<char>, u64)>)
    requires
        at is Some,
    ensures
        next_of(held, at) is Some ==> sorts_before(at.unwrap().0, next_of(held, at)->0),
    decreases held.len(),
{
    if held.len() > 0 && !sorts_before(at.unwrap().0, held[0]) {
        lemma_next_sorts_later(held.skip(1), at);
    }
}

/// Only a cursor can be refused: every other start is at a segment that is
/// held, at the end, or wherever the oldest segment is.
pub proof fn only_a_cursor_is_refused(
    held: Seq<Seq<char>>,
    start: Start,
    cursor: Option<(Seq<char>, u64)>,
    last_len: u64,
)
    requires
        !(start is Cursor),
    ensures
        !pruned(held, starts_at(held, start, cursor, last_len)),
{
    if held.len() > 0 {
        assert(held.contains(held[0]));
        assert(held.contains(held[held.len() - 1]));
        if let Start::Since(moment) = start {
            lemma_latest_is_held(held, moment@);
        }
    }
}

/// A consumer that has never committed a cursor is not refused either.
pub proof fn a_fresh_consumer_is_not_refused(held: Seq<Seq<char>>, name: String, last_len: u64)
    ensures
        !pruned(held, starts_at(held, Start::Cursor(name), None, last_len)),
{
    if held.len() > 0 {
        assert(held.contains(held[held.len() - 1]));
    }
}

proof fn lemma_latest_is_held(held: Seq<Seq<char>>, moment: (int, int))
    ensures
        latest_opened(held, moment) is Some ==> held.contains(latest_opened(held, moment)->0),
    decreases held.len(),
{
    if held.len() > 0 {
        lemma_latest_is_held(held.drop_last(), moment);
        if latest_opened(held, moment) is Some {
            let name = latest_opened(held, moment)->0;
            if name == held.last() {
                assert(held[held.len() - 1] == name);
            } else {
                let k = choose|k: int|
                    0 <= k < held.drop_last().len() && held.drop_last()[k] == name;
                assert(held[k] == name);
            }
        }
    }
}

/// A consumer whose cursor names a segment that is no longer held, from before
/// everything that is, is refused however far into that segment it had got, and
/// told both what it lost and what there is.
pub proof fn a_lost_cursor_is_refused(
    dir: Seq<char>,
    held: Seq<Seq<char>>,
    name: String,
    replay: Replay,
    segment: Seq<char>,
    offset: u64,
    last_len: u64,
    opened: Result<Spool, Fault>,
)
    requires
        held.len() > 0,
        segment.len() > 0,
        !held.contains(segment),
        sorts_before(segment, held[0]),
        opens(
            dir,
            held,
            Start::Cursor(name),
            replay,
            Some((segment, offset)),
            last_len,
            opened,
        ),
    ensures
        pruned(held, Some((segment, offset))),
        opened is Err,
        opened->Err_0.kind == FaultKind::NotFound,
        holds(opened->Err_0.message@, segment + ".eddn"@),
        holds(opened->Err_0.message@, held[0] + ".eddn"@),
{
    let lost = segment + SUFFIX@;
    let oldest = held[0] + SUFFIX@;
    let front = "the spool no longer holds "@;
    let middle = ", which is where this reader stopped; the oldest it holds is "@;
    let message = pruned_message(segment, held[0]);
    assert(message =~= front + lost + (middle + oldest));
    a_part_stands_in_the_whole(front, lost, middle + oldest);
    assert(message =~= (front + lost + middle) + oldest + Seq::<char>::empty());
    a_part_stands_in_the_whole(front + lost + middle, oldest, Seq::empty());
}

/// Nobody else is refused: not one that starts anywhere but at a cursor, nor
/// one that has none yet, nor one whose segment is held or is no older than
/// what is, nor one where nothing is held or nothing was when it stopped.
pub proof fn nobody_else_is_refused(
    dir: Seq<char>,
    held: Seq<Seq<char>>,
    start: Start,
    replay: Replay,
    cursor: Option<(Seq<char>, u64)>,
    last_len: u64,
    opened: Result<Spool, Fault>,
)
    requires
        opens(dir, held, start, replay, cursor, last_len, opened),
        !(start is Cursor) || cursor is None || cursor.unwrap().0.len() == 0 || held.len() == 0
            || held.contains(cursor.unwrap().0) || !sorts_before(cursor.unwrap().0, held[0]),
    ensures
        opened is Ok,
{
    if let Start::Cursor(name) = start {
        if cursor is None {
            a_fresh_consumer_is_not_refused(held, name, last_len);
        }
    } else {
        only_a_cursor_is_refused(held, start, cursor, last_len);
    }
}

/// A reader stands where it was told to start: at the position its consumer
/// committed, to the byte; before everything; at the end of everything, and so
/// does a consumer with no cursor; or at the front of the last segment opened
/// by a moment, which is the oldest where none was. It is named where it was
/// opened by name, skips nothing unless it was told to start at a moment, and
/// asks for the live galaxy.
pub proof fn a_reader_stands_where_it_was_told(
    dir: Seq<char>,
    held: Seq<Seq<char>>,
    start: Start,
    replay: Replay,
    cursor: Option<(Seq<char>, u64)>,
    last_len: u64,
    spool: Spool,
)
    requires
        opens(dir, held, start, replay, cursor, last_len, Ok(spool)),
    ensures
        spool.dir@ == dir && spool.replay == replay,
        spool.galaxy.admits(true) && !spool.galaxy.admits(false),
        match start {
            Start::Cursor(name) => {
                &&& spool.name == Some(name) && spool.since is None
                &&& cursor is Some ==> place(spool.at) == cursor
                &&& cursor is None && held.len() > 0 ==> place(spool.at) == Some(
                    (held.last(), last_len),
                )
                &&& cursor is None && held.len() == 0 ==> place(spool.at) == Some(
                    (Seq::<char>::empty(), 0u64),
                )
            },
            Start::Earliest => spool.name is None && spool.since is None && spool.at is None,
            Start::Latest => {
                &&& spool.name is None && spool.since is None
                &&& held.len() > 0 ==> place(spool.at) == Some((held.last(), last_len))
                &&& held.len() == 0 ==> place(spool.at) == Some((Seq::<char>::empty(), 0u64))
            },
            Start::Since(moment) => {
                &&& spool.name is None && spool.since == Some(moment)
                &&& held.len() == 0 <==> spool.at is None
                &&& held.len() > 0 ==> exists|i: int|
                    #![trigger held[i]]
                    {
                        &&& 0 <= i < held.len()
                        &&& place(spool.at) == Some((held[i], 0u64))
                        &&& i == 0 || opened_by(held[i], moment@)
                        &&& forall|k: int|
                            i < k < held.len() ==> !opened_by(#[trigger] held[k], moment@)
                    }
            },
        },
{
    if let Start::Since(moment) = start {
        if held.len() > 0 {
            let i = lemma_hour_found(held, moment@);
            assert(place(spool.at) == Some((held[i], 0u64)));
        }
    }
}

/// Whether a segment was opened by a moment.
pub open spec fn opened_by(name: Seq<char>, moment: (int, int)) -> bool {
    opened_at(name) is Some && !earlier(moment, opened_at(name)->0)
}

proof fn lemma_hour_found(held: Seq<Seq<char>>, moment: (int, int)) -> (i: int)
    requires
        held.len() > 0,
    ensures
        0 <= i < held.len(),
        match latest_opened(held, moment) {
            Some(name) => held[i] == name && opened_by(held[i], moment),
            None => i == 0 && !opened_by(held[0], moment),
        },
        forall|k: int| i < k < held.len() ==> !opened_by(#[trigger] held[k], moment),
    decreases held.len(),
{
    let last = held.last();
    if opened_by(last, moment) {
        held.len() - 1
    } else if held.len() == 1 {
        assert(latest_opened(held.drop_last(), moment) is None);
        0
    } else {
        let i = lemma_hour_found(held.drop_last(), moment);
        assert(held.drop_last()[i] == held[i]);
        assert forall|k: int| i < k < held.len() implies !opened_by(
            #[trigger] held[k],
            moment,
        ) by {
            if k < held.len() - 1 {
                assert(held.drop_last()[k] == held[k]);
            }
        }
        i
    }
}

/// A fault is handed over as it is and moves nothing: what the file system said,
/// or that a record claims more than one may hold, with where it stands and how
/// much it claims. The directory is named in either.
pub proof fn a_fault_moves_nothing(before: Spool, sight: Sight, after: Spool, step: Step)
    requires
        steps(before, sight, after, step),
        step matches Step::Hand(Err(_)),
    ensures
        place(after.at) == place(before.at) && after.since == before.since,
        step matches Step::Hand(Err(Error::Spool { path, source })) && path == before.dir && {
            &&& sight matches Sight::Failed(fault) ==> source == fault
            &&& sight matches Sight::Tail(tail) ==> {
                &&& source.kind == FaultKind::InvalidData
                &&& look(tail.unwrap()@) is Oversized
                &&& (before.at->0.segment@ + ".eddn"@).is_prefix_of(source.message@)
                &&& holds(source.message@, decimal(before.at->0.offset as nat))
                &&& holds(source.message@, decimal(look(tail.unwrap()@)->len))
            }
        },
        sight is Failed || sight is Tail,
{
    if let Sight::Tail(tail) = sight {
        let at = before.at->0@;
        let len = look(tail.unwrap()@)->len;
        let file = at.0 + ".eddn"@;
        let message = oversized_message(at, len);
        assert(file =~= message.take(file.len() as int));
        let middle = ": a record claiming "@;
        a_part_stands_in_the_whole(
            file + " at "@,
            decimal(at.1 as nat),
            middle + decimal(len) + " bytes"@,
        );
        assert(message =~= (file + " at "@) + decimal(at.1 as nat) + (middle + decimal(len)
            + " bytes"@));
        a_part_stands_in_the_whole(
            file + " at "@ + decimal(at.1 as nat) + middle,
            decimal(len),
            " bytes"@,
        );
    }
}

/// What the file system will not say is always handed over as a fault, and so is
/// a record that claims too much.
pub proof fn a_fault_is_handed_over(before: Spool, sight: Sight, after: Spool, step: Step)
    requires
        steps(before, sight, after, step),
        sight is Failed || (sight matches Sight::Tail(Some(tail)) && before.at is Some && look(
            tail@,
        ) is Oversized),
    ensures
        step matches Step::Hand(Err(_)),
{
}

/// A reader at the end of its segment walks on exactly where a later one is
/// held, to the front of the first that is; where none is it stays, and waits or
/// stops as it was told.
pub proof fn a_reader_walks_on_to_the_first_later_segment(
    before: Spool,
    held: Vec<String>,
    after: Spool,
    step: Step,
)
    requires
        steps(before, Sight::Held(held), after, step),
    ensures
        step is Look <==> exists|i: int|
            0 <= i < held@.len() && is_later(#[trigger] held@[i], before.at),
        step is Look ==> exists|i: int|
            0 <= i < held@.len() && is_later(#[trigger] held@[i], before.at) && place(after.at)
                == Some((held@[i]@, 0u64)) && forall|k: int|
                0 <= k < i ==> !is_later(#[trigger] held@[k], before.at),
        !(step is Look) ==> after.at == before.at && if before.replay == Replay::ToEnd {
            step is End
        } else {
            step is Wait
        },
        after.since == before.since,
{
    let names = texts(held@);
    lemma_next_is_first(names, place(before.at), 0);
    assert(names.skip(0) =~= names);
    assert forall|i: int| 0 <= i < held@.len() implies is_later(#[trigger] held@[i], before.at) == (
    before.at is None || sorts_before(place(before.at).unwrap().0, names[i])) by {
    }
    if next_of(names, place(before.at)) is Some {
        let i = choose|i: int|
            0 <= i < names.len() && #[trigger] names[i] == next_of(names, place(before.at))->0 && (
            before.at is None || sorts_before(place(before.at).unwrap().0, names[i])) && forall|
                k: int,
            |
                0 <= k < i ==> before.at is Some && !sorts_before(
                    place(before.at).unwrap().0,
                    #[trigger] names[k],
                );
        assert(is_later(held@[i], before.at));
        assert forall|k: int| 0 <= k < i implies !is_later(#[trigger] held@[k], before.at) by {
            assert(!sorts_before(place(before.at).unwrap().0, names[k]));
        }
    } else {
        assert forall|k: int| 0 <= k < held@.len() implies !is_later(
            #[trigger] held@[k],
            before.at,
        ) by {
            assert(!sorts_before(place(before.at).unwrap().0, names[k]));
        }
    }
}

/// Whether a segment comes after the one a reader stands in, or after none.
pub open spec fn is_later(name: String, at: Option<Position>) -> bool {
    at is None || sorts_before(at->0.segment@, name@)
}

proof fn lemma_next_is_first(held: Seq<Seq<char>>, at: Option<(Seq<char>, u64)>, from: int)
    requires
        0 <= from <= held.len(),
    ensures
        match next_of(held.skip(from), at) {
            Some(name) => exists|i: int|
                from <= i < held.len() && #[trigger] held[i] == name && (at is None
                    || sorts_before(at.unwrap().0, held[i])) && forall|k: int|
                    from <= k < i ==> at is Some && !sorts_before(
                        at.unwrap().0,
                        #[trigger] held[k],
                    ),
            None => forall|k: int|
                from <= k < held.len() ==> at is Some && !sorts_before(
                    at.unwrap().0,
                    #[trigger] held[k],
                ),
        },
    decreases held.len() - from,
{
    let rest = held.skip(from);
    if rest.len() > 0 {
        assert(rest[0] == held[from]);
        assert(rest.skip(1) =~= held.skip(from + 1));
        lemma_next_is_first(held, at, from + 1);
        if at is None || sorts_before(at.unwrap().0, held[from]) {
            assert(next_of(rest, at) == Some(held[from]));
        } else if next_of(rest, at) is Some {
            let name = next_of(rest, at)->0;
            let i = choose|i: int|
                from + 1 <= i < held.len() && #[trigger] held[i] == name && (at is None
                    || sorts_before(at.unwrap().0, held[i])) && forall|k: int|
                    from + 1 <= k < i ==> at is Some && !sorts_before(
                        at.unwrap().0,
                        #[trigger] held[k],
                    );
            assert(held[i] == name);
            assert forall|k: int| from <= k < i implies at is Some && !sorts_before(
                at.unwrap().0,
                #[trigger] held[k],
            ) by {
            }
        }
    }
}

/// A record taken moves a reader on by its head and its frame, within its
/// segment.
pub proof fn a_record_taken_is_passed_by(before: Spool, tail: Vec<u8>, after: Spool, step: Step)
    requires
        before.at is Some,
        look(tail@) is Whole,
        steps(before, Sight::Tail(Some(tail)), after, step),
    ensures
        after.at is Some,
        after.at->0.segment@ == before.at->0.segment@,
        after.at->0.offset == before.at->0.offset + 12 + look(tail@)->bytes.len(),
{
}

/// Only a reader that was named keeps its place, and it is the place where a
/// restart would resume.
pub proof fn only_a_named_reader_keeps_its_place(spool: Spool, cursor: Option<(String, Position)>)
    requires
        spool.commits(cursor),
    ensures
        cursor is Some <==> spool.name is Some && spool.at is Some,
        cursor is Some ==> Some(cursor.unwrap().0) == spool.name && Some(cursor.unwrap().1)
            == spool.at,
{
}

/// Naming a reader, or choosing the galaxy it hands over, moves it nowhere and
/// skips nothing.
pub proof fn naming_and_choosing_move_nothing(spool: Spool, name: String, galaxy: Galaxy)
    ensures
        spool.as_named(name).name == Some(name) && spool.as_named(name).galaxy == spool.galaxy,
        spool.of_galaxy(galaxy).name == spool.name && spool.of_galaxy(galaxy).galaxy == galaxy,
        spool.as_named(name).at == spool.at && spool.of_galaxy(galaxy).at == spool.at,
        spool.as_named(name).since == spool.since && spool.of_galaxy(galaxy).since == spool.since,
        spool.as_named(name).replay == spool.replay && spool.of_galaxy(galaxy).replay
            == spool.replay,
        spool.as_named(name).dir == spool.dir && spool.of_galaxy(galaxy).dir == spool.dir,
{
}

/// A reader that is refused is told in these words, and so is one that finds a
/// record claiming too much.
pub proof fn a_reader_is_told_in_these_words(
    dir: Seq<char>,
    held: Seq<Seq<char>>,
    start: Start,
    replay: Replay,
    cursor: (Seq<char>, u64),
    last_len: u64,
    fault: Fault,
    at: (Seq<char>, u64),
    len: nat,
)
    ensures
        opens(dir, held, start, replay, Some(cursor), last_len, Err(fault)) ==> fault.message@
            == "the spool no longer holds "@ + cursor.0 + ".eddn"@
            + ", which is where this reader stopped; the oldest it holds is "@ + held[0]
            + ".eddn"@,
        oversized_message(at, len) == at.0 + ".eddn"@ + " at "@ + decimal(at.1 as nat)
            + ": a record claiming "@ + decimal(len) + " bytes"@,
{
    if opens(dir, held, start, replay, Some(cursor), last_len, Err(fault)) {
        if !(start is Cursor) {
            only_a_cursor_is_refused(held, start, Some(cursor), last_len);
        }
    }
}

} // verus!
