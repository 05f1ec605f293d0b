//! What is worth saying about what the socket does to the connection.

use crate::connection::{elapsed, since, RECONNECT_MAX, RECONNECT_MIN, SECOND};
use crate::text::{
    a_part_stands_in_the_whole, decimal, decimal_text, holds, what_a_part_holds_the_whole_holds,
};
use vstd::prelude::*;
use vstd::string::StringExecFns;

verus! {

/// How loudly something is said
#[derive(Clone, Copy, Debug, PartialEq, Eq, Structural)]
pub enum Level {
    ERROR,
    WARN,
    INFO,
    DEBUG,
    TRACE,
}

/// Something worth saying, and how loudly
///
/// Handed back rather than emitted so that deciding what is worth saying can
/// be tested apart from the saying of it.
#[derive(Debug)]
pub struct Note {
    pub level: Level,
    pub message: String,
}

/// Something worth saying, as text
pub struct NoteView {
    pub level: Level,
    pub message: Seq<char>,
}

impl View for Note {
    type V = NoteView;

    open spec fn view(&self) -> NoteView {
        NoteView { level: self.level, message: self.message@ }
    }
}

/// Some notes, as text.
pub open spec fn notes_of(notes: Seq<Note>) -> Seq<NoteView> {
    Seq::new(notes.len(), |i: int| notes[i]@)
}

/// Something that happened to the connection
#[derive(Debug)]
pub enum Happening {
    /// The connection was lost, for a reason.
    Disconnected(String),
    /// A connection was made.
    Connected,
    /// A handshake did not finish, for a reason.
    HandshakeFailed(String),
    /// Anything else.
    Other,
}

/// How close together reports may be made, in nanoseconds
///
/// See [`Reporter`] for what this holds back and why.
pub const WARN_INTERVAL: u128 = 30_000_000_000;

/// Decides what is worth saying about what the socket does to the connection
///
/// Losing a connection is worth hearing about. A gateway that accepts and drops
/// on repeat loses one every second, and saying so every second buries
/// everything else, so a loss inside [`WARN_INTERVAL`] of the last one reported
/// is counted instead, and the count goes out with the next one that is.
///
/// A loss and the recovery that ends it are reported together or not at all.
/// Being told a connection went away and never told it came back reads as an
/// outage that is still going.
///
/// Times are readings of a monotonic clock in nanoseconds.
#[derive(Clone, Copy, Debug, PartialEq, Eq, Structural)]
pub struct Reporter {
    /// When the connection was lost, while it is still gone.
    pub lost_at: Option<u128>,
    /// Whether that loss was one of the ones reported.
    pub loss_reported: bool,
    /// When a report was last made.
    pub said_at: Option<u128>,
    /// How many have gone unwarned since.
    pub unwarned: u64,
}

/// What is said of a connection lost, with the cadence of the retrying, which
/// is the only sign of life there will be until it is back.
pub open spec fn lost_message(reason: Seq<char>) -> Seq<char> {
    "Connection lost ("@ + reason + "), retrying every "@ + decimal(RECONNECT_MIN as nat) + " to "@
        + decimal(RECONNECT_MAX as nat) + " seconds"@
}

/// What is said of a connection found again.
pub open spec fn found_message(gone: u128) -> Seq<char> {
    "Connected again, "@ + decimal((gone / SECOND) as nat) + "s without one"@
}

/// What is said of a handshake that did not finish.
pub open spec fn handshake_message(reason: Seq<char>) -> Seq<char> {
    "Handshake did not finish: "@ + reason
}

/// A warning with the count of those that went unreported before it.
pub open spec fn with_unreported(message: Seq<char>, unwarned: u64) -> Seq<char> {
    if unwarned == 0 {
        message
    } else {
        message + " ("@ + decimal(unwarned as nat) + " more went unreported)"@
    }
}

impl Reporter {
    /// Whether a report was made too recently for another.
    pub open spec fn held_back(self, now: u128) -> bool {
        self.said_at is Some && since(now, self.said_at->0) < WARN_INTERVAL
    }

    /// What a warning leaves, said or held back.
    pub open spec fn warned(self, now: u128) -> Reporter {
        if self.held_back(now) {
            Reporter { unwarned: (self.unwarned + 1) as u64, ..self }
        } else {
            Reporter { said_at: Some(now), unwarned: 0, ..self }
        }
    }

    /// What is said of a warning.
    pub open spec fn warning(self, message: Seq<char>, now: u128) -> Seq<NoteView> {
        if self.held_back(now) {
            Seq::empty()
        } else {
            seq![
                NoteView { level: Level::WARN, message: with_unreported(message, self.unwarned) },
            ]
        }
    }

    /// What something that happened leaves.
    pub open spec fn after(self, event: Happening, now: u128) -> Reporter {
        match event {
            Happening::Disconnected(_) => if self.lost_at is None {
                Reporter {
                    lost_at: Some(now),
                    loss_reported: !self.held_back(now),
                    ..self.warned(now)
                }
            } else {
                self
            },
            Happening::Connected => Reporter { lost_at: None, ..self },
            Happening::HandshakeFailed(_) => self.warned(now),
            Happening::Other => self,
        }
    }

    /// What is said of something that happened.
    pub open spec fn says(self, event: Happening, now: u128) -> Seq<NoteView> {
        match event {
            Happening::Disconnected(reason) => if self.lost_at is None {
                self.warning(lost_message(reason@), now)
            } else {
                Seq::empty()
            },
            Happening::Connected => if self.lost_at is Some && self.loss_reported {
                seq![
                    NoteView {
                        level: Level::INFO,
                        message: found_message(since(now, self.lost_at->0)),
                    },
                ]
            } else {
                Seq::empty()
            },
            Happening::HandshakeFailed(reason) => self.warning(handshake_message(reason@), now),
            Happening::Other => Seq::empty(),
        }
    }

    /// What some things that happened leave, in order.
    pub open spec fn after_all(self, events: Seq<Happening>, now: u128) -> Reporter
        decreases events.len(),
    {
        if events.len() == 0 {
            self
        } else {
            self.after_all(events.drop_last(), now).after(events.last(), now)
        }
    }

    /// What is said of some things that happened, in order.
    pub open spec fn says_all(self, events: Seq<Happening>, now: u128) -> Seq<NoteView>
        decreases events.len(),
    {
        if events.len() == 0 {
            Seq::empty()
        } else {
            self.says_all(events.drop_last(), now) + self.after_all(events.drop_last(), now).says(
                events.last(),
                now,
            )
        }
    }

    /// What is worth saying about what the socket has done on its own.
    pub fn observe(&mut self, events: &Vec<Happening>, now: u128) -> (said: Vec<Note>)
        requires
            old(self).unwarned + events@.len() <= u64::MAX,
        ensures
            *final(self) == old(self).after_all(events@, now),
            notes_of(said@) == old(self).says_all(events@, now),
    {
        let mut said: Vec<Note> = Vec::new();
        let mut i: usize = 0;
        assert(events@.take(0) == Seq::<Happening>::empty());
        while i < events.len()
            invariant
                i <= events.len(),
                *self == old(self).after_all(events@.take(i as int), now),
                notes_of(said@) == old(self).says_all(events@.take(i as int), now),
                self.unwarned + (events@.len() - i) <= u64::MAX,
            decreases events.len() - i,
        {
            assert(events@.take(i + 1).drop_last() == events@.take(i as int));
            let ghost before = *self;
            let ghost already = notes_of(said@);
            match &events[i] {
                Happening::Disconnected(reason) => {
                    if self.lost_at.is_none() {
                        self.lost_at = Some(now);
                        let mut message = "Connection lost (".to_owned();
                        message.append(reason.as_str());
                        message.append("), retrying every ");
                        let least = decimal_text(RECONNECT_MIN as u128);
                        message.append(least.as_str());
                        message.append(" to ");
                        let most = decimal_text(RECONNECT_MAX as u128);
                        message.append(most.as_str());
                        message.append(" seconds");
                        self.loss_reported = self.warn(message.as_str(), now, &mut said);
                    } else {
                        assert(already + Seq::<NoteView>::empty() == already);
                    }
                },
                Happening::Connected => {
                    match self.lost_at {
                        Some(at) => {
                            self.lost_at = None;
                            // Only if its loss was, so the two come as a pair.
                            // The connection is working again, so this is news
                            // rather than trouble.
                            if self.loss_reported {
                                let mut message = "Connected again, ".to_owned();
                                let gone = decimal_text(elapsed(now, at) / SECOND);
                                message.append(gone.as_str());
                                message.append("s without one");
                                said.push(Note { level: Level::INFO, message });
                                assert(notes_of(said@) == already + before.says(
                                    events@[i as int],
                                    now,
                                ));
                            } else {
                                assert(already + Seq::<NoteView>::empty() == already);
                            }
                        },
                        None => {
                            assert(already + Seq::<NoteView>::empty() == already);
                        },
                    }
                },
                // Says what went wrong rather than naming the peer. A handshake
                // that does not finish is as often a middlebox holding the
                // connection open as it is the wrong port, and the reason is
                // the only thing that tells them apart.
                Happening::HandshakeFailed(reason) => {
                    let mut message = "Handshake did not finish: ".to_owned();
                    message.append(reason.as_str());
                    self.warn(message.as_str(), now, &mut said);
                },
                Happening::Other => {
                    assert(already + Seq::<NoteView>::empty() == already);
                },
            }
            i += 1;
        }
        assert(events@.take(i as int) == events@);
        said
    }

    /// Add a warning unless one was reported too recently, saying whether it
    /// was added.
    pub fn warn(&mut self, message: &str, now: u128, said: &mut Vec<Note>) -> (added: bool)
        requires
            old(self).unwarned < u64::MAX,
        ensures
            added == !old(self).held_back(now),
            *final(self) == old(self).warned(now),
            notes_of(final(said)@) == notes_of(old(said)@) + old(self).warning(message@, now),
    {
        let ghost already = notes_of(said@);
        let recent = match self.said_at {
            Some(at) => elapsed(now, at) < WARN_INTERVAL,
            None => false,
        };
        if recent {
            self.unwarned = self.unwarned + 1;
            assert(already + Seq::<NoteView>::empty() == already);
            return false;
        }
        let mut text = message.to_owned();
        if self.unwarned != 0 {
            text.append(" (");
            let count = decimal_text(self.unwarned as u128);
            text.append(count.as_str());
            text.append(" more went unreported)");
        }
        said.push(Note { level: Level::WARN, message: text });
        assert(notes_of(said@) == already + old(self).warning(message@, now));
        self.unwarned = 0;
        self.said_at = Some(now);
        true
    }

    /// Start again on a connection that has been replaced by hand.
    pub fn replaced(&mut self)
        ensures
            *final(self) == (Reporter { lost_at: None, loss_reported: false, ..*old(self) }),
    {
        self.lost_at = None;
        self.loss_reported = false;
    }
}

impl Default for Reporter {
    /// Nothing lost, and nothing said yet.
    fn default() -> (reporter: Self)
        ensures
            reporter == (Reporter {
                lost_at: None,
                loss_reported: false,
                said_at: None,
                unwarned: 0,
            }),
    {
        Reporter { lost_at: None, loss_reported: false, said_at: None, unwarned: 0 }
    }
}

/// How many warnings some notes hold.
pub open spec fn warnings_in(notes: Seq<NoteView>) -> nat
    decreases notes.len(),
{
    if notes.len() == 0 {
        0
    } else {
        warnings_in(notes.drop_last()) + if notes.last().level == Level::WARN {
            1nat
        } else {
            0nat
        }
    }
}

proof fn lemma_warnings_add(a: Seq<NoteView>, b: Seq<NoteView>)
    ensures
        warnings_in(a + b) == warnings_in(a) + warnings_in(b),
    decreases b.len(),
{
    if b.len() == 0 {
        assert(a + b == a);
    } else {
        assert((a + b).drop_last() == a + b.drop_last());
        lemma_warnings_add(a, b.drop_last());
    }
}

/// However much happens inside the interval of the last report, no warning is
/// said, and the last report stays the last.
pub proof fn nothing_is_warned_inside_the_interval(
    reporter: Reporter,
    events: Seq<Happening>,
    now: u128,
)
    requires
        reporter.held_back(now),
    ensures
        warnings_in(reporter.says_all(events, now)) == 0,
        reporter.after_all(events, now).said_at == reporter.said_at,
    decreases events.len(),
{
    if events.len() > 0 {
        nothing_is_warned_inside_the_interval(reporter, events.drop_last(), now);
        let state = reporter.after_all(events.drop_last(), now);
        let said = state.says(events.last(), now);
        lemma_warnings_add(reporter.says_all(events.drop_last(), now), said);
        reveal_with_fuel(warnings_in, 2);
    }
}

/// However much happens at once, at most one warning is said of it.
pub proof fn at_most_one_warning_at_once(reporter: Reporter, events: Seq<Happening>, now: u128)
    ensures
        warnings_in(reporter.says_all(events, now)) <= 1,
        warnings_in(reporter.says_all(events, now)) == 1 ==> reporter.after_all(
            events,
            now,
        ).said_at == Some(now),
    decreases events.len(),
{
    if events.len() > 0 {
        at_most_one_warning_at_once(reporter, events.drop_last(), now);
        let state = reporter.after_all(events.drop_last(), now);
        let said = state.says(events.last(), now);
        lemma_warnings_add(reporter.says_all(events.drop_last(), now), said);
        reveal_with_fuel(warnings_in, 2);
    }
}

/// A recovery is reported exactly where the loss it ends was: the loss sets
/// whether it was said, nothing but another loss or a replacement by hand
/// changes that, and the connection made goes by it.
pub proof fn a_recovery_is_reported_only_if_its_loss_was(
    reporter: Reporter,
    lost: String,
    now: u128,
    later: u128,
)
    requires
        reporter.lost_at is None,
    ensures
        ({
            let gone = reporter.after(Happening::Disconnected(lost), now);
            (reporter.says(Happening::Disconnected(lost), now).len() == 1) == (gone.says(
                Happening::Connected,
                later,
            ).len() == 1)
        }),
{
}

/// While a connection is lost, nothing but finding it changes that it is lost
/// or whether its loss was reported.
pub proof fn a_loss_stands_until_it_is_found(
    reporter: Reporter,
    events: Seq<Happening>,
    now: u128,
)
    requires
        reporter.lost_at is Some,
        forall|i: int| 0 <= i < events.len() ==> !(#[trigger] events[i] is Connected),
    ensures
        reporter.after_all(events, now).lost_at == reporter.lost_at,
        reporter.after_all(events, now).loss_reported == reporter.loss_reported,
    decreases events.len(),
{
    if events.len() > 0 {
        assert forall|i: int| 0 <= i < events.drop_last().len() implies !(
        #[trigger] events.drop_last()[i] is Connected) by {
            assert(events.drop_last()[i] == events[i]);
        }
        a_loss_stands_until_it_is_found(reporter, events.drop_last(), now);
        assert(!(events[events.len() - 1] is Connected));
    }
}

/// A connection replaced by hand is not waiting on a recovery: the first
/// connection made after it is not reported.
pub proof fn a_replaced_connection_waits_on_no_recovery(reporter: Reporter, now: u128)
    ensures
        (Reporter { lost_at: None, loss_reported: false, ..reporter }).says(
            Happening::Connected,
            now,
        ).len() == 0,
{
}

/// How many of some things that happened are worth a warning, said or not.
pub open spec fn warranted(reporter: Reporter, events: Seq<Happening>, now: u128) -> nat
    decreases events.len(),
{
    if events.len() == 0 {
        0
    } else {
        let state = reporter.after_all(events.drop_last(), now);
        warranted(reporter, events.drop_last(), now) + match events.last() {
            Happening::Disconnected(_) => if state.lost_at is None {
                1nat
            } else {
                0nat
            },
            Happening::HandshakeFailed(_) => 1nat,
            _ => 0nat,
        }
    }
}

/// What goes unsaid inside the interval is counted, and the count stands until
/// the next warning carries it.
pub proof fn what_is_held_back_is_counted(reporter: Reporter, events: Seq<Happening>, now: u128)
    requires
        reporter.held_back(now),
        reporter.unwarned + events.len() <= u64::MAX,
    ensures
        reporter.after_all(events, now).unwarned == reporter.unwarned + warranted(
            reporter,
            events,
            now,
        ),
        warranted(reporter, events, now) <= events.len(),
    decreases events.len(),
{
    if events.len() > 0 {
        what_is_held_back_is_counted(reporter, events.drop_last(), now);
        nothing_is_warned_inside_the_interval(reporter, events.drop_last(), now);
    }
}

/// A loss is warned of where no warning was made in the thirty seconds before
/// it, whatever was warned of before then, and so is a handshake that did not
/// finish: once, with the reason, and with how many went unreported since the
/// last one where any did. Inside the thirty seconds neither is said, and one
/// more has gone unreported.
pub proof fn trouble_is_said_unless_it_was_just_now(
    reporter: Reporter,
    reason: String,
    now: u128,
)
    requires
        reporter.unwarned < u64::MAX,
    ensures
        ({
            let due = reporter.said_at is None || now - reporter.said_at->0 >= 30_000_000_000;
            let lost = Happening::Disconnected(reason);
            let failed = Happening::HandshakeFailed(reason);
            &&& reporter.says(failed, now).len() == if due {
                1nat
            } else {
                0nat
            }
            &&& reporter.lost_at is None ==> reporter.says(lost, now).len() == reporter.says(
                failed,
                now,
            ).len()
            &&& reporter.lost_at is Some ==> reporter.says(lost, now).len() == 0
                && reporter.after(lost, now) == reporter
            &&& due ==> {
                let note = reporter.says(failed, now)[0];
                &&& note.level == Level::WARN
                &&& holds(note.message, reason@)
                &&& reporter.unwarned > 0 ==> holds(
                    note.message,
                    decimal(reporter.unwarned as nat) + " more went unreported"@,
                )
                &&& reporter.after(failed, now).said_at == Some(now)
                &&& reporter.after(failed, now).unwarned == 0
            }
            &&& due && reporter.lost_at is None ==> {
                let note = reporter.says(lost, now)[0];
                &&& note.level == Level::WARN
                &&& holds(note.message, reason@)
                &&& reporter.unwarned > 0 ==> holds(
                    note.message,
                    decimal(reporter.unwarned as nat) + " more went unreported"@,
                )
                &&& reporter.after(lost, now).said_at == Some(now)
                &&& reporter.after(lost, now).unwarned == 0
            }
            &&& !due ==> reporter.after(failed, now).unwarned == reporter.unwarned + 1
                && reporter.after(failed, now).said_at == reporter.said_at
            &&& !due && reporter.lost_at is None ==> reporter.after(lost, now).unwarned
                == reporter.unwarned + 1 && reporter.after(lost, now).said_at == reporter.said_at
            &&& reporter.lost_at is None ==> reporter.after(lost, now).lost_at == Some(now)
            &&& reporter.after(failed, now).lost_at == reporter.lost_at
            &&& reporter.after(failed, now).loss_reported == reporter.loss_reported
        }),
{
    let tail = "), retrying every "@ + decimal(RECONNECT_MIN as nat) + " to "@ + decimal(
        RECONNECT_MAX as nat,
    ) + " seconds"@;
    assert(lost_message(reason@) =~= "Connection lost ("@ + reason@ + tail);
    a_part_stands_in_the_whole("Connection lost ("@, reason@, tail);
    assert(handshake_message(reason@) =~= "Handshake did not finish: "@ + reason@ + Seq::empty());
    a_part_stands_in_the_whole("Handshake did not finish: "@, reason@, Seq::empty());
    lemma_warning_holds(lost_message(reason@), reporter.unwarned, reason@);
    lemma_warning_holds(handshake_message(reason@), reporter.unwarned, reason@);
}

proof fn lemma_warning_holds(message: Seq<char>, unwarned: u64, reason: Seq<char>)
    ensures
        holds(message, reason) ==> holds(with_unreported(message, unwarned), reason),
        unwarned > 0 ==> holds(
            with_unreported(message, unwarned),
            decimal(unwarned as nat) + " more went unreported"@,
        ),
{
    reveal_strlit(" more went unreported)");
    reveal_strlit(" more went unreported");
    reveal_strlit(")");
    let said = with_unreported(message, unwarned);
    if unwarned > 0 {
        let count = decimal(unwarned as nat) + " more went unreported"@;
        assert(" more went unreported)"@ =~= " more went unreported"@ + ")"@);
        assert(said =~= (message + " ("@) + count + ")"@);
        a_part_stands_in_the_whole(message + " ("@, count, ")"@);
        if holds(message, reason) {
            let tail = " ("@ + decimal(unwarned as nat) + " more went unreported)"@;
            assert(said =~= Seq::<char>::empty() + message + tail);
            what_a_part_holds_the_whole_holds(Seq::empty(), message, tail, reason);
        }
    }
}

/// A connection found again is said exactly where its loss was, as news, with
/// how many whole seconds there was none; nothing is lost after it, and it
/// counts for nothing toward the next warning.
pub proof fn a_recovery_says_how_long_there_was_none(reporter: Reporter, now: u128)
    ensures
        ({
            let said = reporter.says(Happening::Connected, now);
            let after = reporter.after(Happening::Connected, now);
            &&& said.len() == if reporter.lost_at is Some && reporter.loss_reported {
                1nat
            } else {
                0nat
            }
            &&& said.len() > 0 && now >= reporter.lost_at->0 ==> said[0].level == Level::INFO
                && holds(
                said[0].message,
                decimal(((now - reporter.lost_at->0) / 1_000_000_000) as nat) + "s without one"@,
            )
            &&& after == (Reporter { lost_at: None, ..reporter })
            &&& reporter.says(Happening::Other, now).len() == 0
            &&& reporter.after(Happening::Other, now) == reporter
        }),
{
    if reporter.lost_at is Some && reporter.loss_reported && now >= reporter.lost_at->0 {
        let gone = decimal(((now - reporter.lost_at->0) / 1_000_000_000) as nat)
            + "s without one"@;
        let message = found_message(since(now, reporter.lost_at->0));
        assert(message =~= "Connected again, "@ + gone + Seq::empty());
        a_part_stands_in_the_whole("Connected again, "@, gone, Seq::empty());
    }
}

/// What happens is taken in order, and what is said of it stands in that order.
pub proof fn what_happens_is_taken_in_order(
    reporter: Reporter,
    events: Seq<Happening>,
    event: Happening,
    now: u128,
)
    ensures
        reporter.after_all(events.push(event), now) == reporter.after_all(events, now).after(
            event,
            now,
        ),
        reporter.says_all(events.push(event), now) == reporter.says_all(events, now)
            + reporter.after_all(events, now).says(event, now),
        reporter.after_all(Seq::empty(), now) == reporter,
        reporter.says_all(Seq::empty(), now).len() == 0,
{
    assert(events.push(event).drop_last() =~= events);
}

/// A loss that is warned of with nothing unreported before it says its reason
/// and how often the connection is retried; a failed handshake says its reason.
pub proof fn a_loss_says_how_it_is_retried(reporter: Reporter, reason: String, now: u128)
    requires
        reporter.said_at is None || now - reporter.said_at->0 >= 30_000_000_000,
        reporter.unwarned == 0,
        reporter.lost_at is None,
    ensures
        reporter.says(Happening::Disconnected(reason), now)[0].message == "Connection lost ("@
            + reason@ + "), retrying every 1 to 15 seconds"@,
        reporter.says(Happening::HandshakeFailed(reason), now)[0].message
            == "Handshake did not finish: "@ + reason@,
{
    reveal_strlit("), retrying every 1 to 15 seconds");
    reveal_strlit("), retrying every ");
    reveal_strlit(" to ");
    reveal_strlit(" seconds");
    reveal_with_fuel(decimal, 3);
    assert(decimal(1) =~= seq!['1']);
    assert(decimal(15) =~= seq!['1', '5']);
    let tail = "), retrying every "@ + decimal(1) + " to "@ + decimal(15) + " seconds"@;
    assert("), retrying every 1 to 15 seconds"@.len() == 33);
    assert(tail.len() == 33);
    assert(tail =~= "), retrying every 1 to 15 seconds"@);
    assert(lost_message(reason@) =~= "Connection lost ("@ + reason@ + tail);
}

/// A loss is remembered as reported exactly where it was, so that its recovery
/// is said exactly then.
pub proof fn a_loss_is_remembered_as_it_was_said(reporter: Reporter, reason: String, now: u128)
    requires
        reporter.lost_at is None,
    ensures
        reporter.after(Happening::Disconnected(reason), now).loss_reported <==> reporter.says(
            Happening::Disconnected(reason),
            now,
        ).len() > 0,
{
}

/// A recovery that is said is said in these words, and a warning that others
/// went unreported before ends in how many.
pub proof fn a_recovery_and_a_count_are_said_in_these_words(
    reporter: Reporter,
    message: Seq<char>,
    now: u128,
)
    ensures
        reporter.lost_at is Some && reporter.loss_reported && now >= reporter.lost_at->0
            ==> reporter.says(Happening::Connected, now)[0].message == "Connected again, "@
            + decimal(((now - reporter.lost_at->0) / 1_000_000_000) as nat) + "s without one"@,
        reporter.warning(message, now).len() > 0 && reporter.unwarned > 0 ==> reporter.warning(
            message,
            now,
        )[0].message == message + " ("@ + decimal(reporter.unwarned as nat)
            + " more went unreported)"@,
        reporter.warning(message, now).len() > 0 && reporter.unwarned == 0 ==> reporter.warning(
            message,
            now,
        )[0].message == message,
{
}

} // verus!
