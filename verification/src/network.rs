//! The gateway's socket: what a live feed decides.
//!
//! A [`Network`] decides and the socket is driven around it: it is told what a
//! receive came back with, and says whether a frame is handed over, another is
//! waited for, or the connection is replaced.

use crate::connection::{since, Stall, SECOND};
use crate::error::Error;
use crate::frame::{Frame, FrameView};
use crate::galaxy::Galaxy;
use crate::moment::Moment;
use crate::reporter::{notes_of, Happening, Note, Reporter};
use crate::text::{decimal, decimal_text};
use vstd::prelude::*;
use vstd::string::StringExecFns;

verus! {

/// What a live feed remembers
#[derive(Debug)]
pub struct Network {
    /// The gateway subscribed to.
    pub url: String,
    /// What is worth saying about the connection.
    pub reports: Reporter,
    /// Absent when the caller asked for no stall timeout at all.
    pub stall: Option<Stall>,
    /// Which galaxy's data to hand over; the live one unless asked otherwise.
    pub galaxy: Galaxy,
    /// Whether the opening line has been said yet. Said on the first read, when
    /// the galaxy chosen is final.
    pub started: bool,
}

/// What a receive came back with
#[derive(Debug)]
pub enum Heard {
    /// A message: its first part, where it has one, and when it was held.
    Message(Option<Vec<u8>>, Moment),
    /// Nothing arrived within the poll interval.
    Nothing,
    /// The socket failed, saying this.
    Failed(String),
}

/// What a live feed does next
#[derive(Debug)]
pub enum Turn {
    /// Hand this frame over.
    Hand(Frame),
    /// Receive again.
    Again,
    /// Throw the connection away for this reason and take a new one, and then
    /// hand this error over where there is one.
    Replace(String, Option<Error>),
}

/// Why a connection that has been quiet is replaced.
pub open spec fn quiet_reason(quiet: u128) -> Seq<char> {
    "nothing for "@ + decimal((quiet / SECOND) as nat) + "s"@
}

/// Why a connection whose socket failed is replaced.
pub open spec fn failed_reason(err: Seq<char>) -> Seq<char> {
    "socket error: "@ + err
}

/// Whether a live feed comes to another, and does this next, by what a receive
/// came back with.
pub open spec fn turns(
    before: Network,
    heard: Heard,
    now: u128,
    after: Network,
    turn: Turn,
) -> bool {
    match heard {
        Heard::Message(part, received_at) => {
            &&& after == (Network {
                stall: match before.stall {
                    Some(stall) => Some(Stall { timeout: stall.timeout, quiet_since: now }),
                    None => None,
                },
                ..before
            })
            &&& match part {
                Some(bytes) => turn matches Turn::Hand(frame) && frame@ == (FrameView {
                    received_at: received_at@,
                    bytes: bytes@,
                }),
                None => turn is Again,
            }
        },
        Heard::Nothing => {
            &&& after == before
            &&& match before.stall {
                Some(stall) if stall.overran(now) => turn matches Turn::Replace(
                    reason,
                    None,
                ) && reason@ == quiet_reason(since(now, stall.quiet_since)),
                _ => turn is Again,
            }
        },
        Heard::Failed(err) => {
            &&& after == before
            &&& turn matches Turn::Replace(reason, Some(Error::Socket(said))) && reason@
                == failed_reason(err@) && said == err
        },
    }
}

/// Whether a live feed comes to another as its first read begins, and says this
/// of its stall timeout.
pub open spec fn begins(before: Network, after: Network, stall: Option<String>) -> bool {
    &&& after == (Network { started: true, ..before })
    &&& match stall {
        Some(stall) => !before.started && stall@ == before.stall_said(),
        None => before.started,
    }
}

impl Network {
    /// Whether this is a subscription that has just been opened: nothing heard
    /// or said of it, and the quiet measured from now where it is at all.
    pub open spec fn is_fresh(
        self,
        url: Seq<char>,
        stall_timeout: Option<u128>,
        now: u128,
    ) -> bool {
        &&& self.url@ == url
        &&& self.reports == (Reporter {
            lost_at: None,
            loss_reported: false,
            said_at: None,
            unwarned: 0,
        })
        &&& self.stall == match stall_timeout {
            Some(timeout) => Some(Stall { timeout, quiet_since: now }),
            None => None,
        }
        &&& self.galaxy == Galaxy::LIVE
        &&& !self.started
    }

    /// This subscription on a connection that has just been taken.
    pub open spec fn reconnected(self, now: u128) -> Network {
        Network {
            stall: match self.stall {
                Some(stall) => Some(Stall { timeout: stall.timeout, quiet_since: now }),
                None => None,
            },
            reports: Reporter { lost_at: None, loss_reported: false, ..self.reports },
            ..self
        }
    }
}

impl Network {
    /// A subscription that has just been opened
    ///
    /// `stall_timeout` is how long the gateway may publish nothing before its
    /// connection is thrown away for a new one; [`None`] leaves the connection
    /// alone however long it carries nothing.
    pub fn open(url: &str, stall_timeout: Option<u128>, now: u128) -> (network: Network)
        ensures
            network.is_fresh(url@, stall_timeout, now),
    {
        let stall = match stall_timeout {
            Some(timeout) => Some(Stall::new(timeout, now)),
            None => None,
        };
        Network {
            url: url.to_owned(),
            reports: Reporter::default(),
            stall,
            galaxy: Galaxy::LIVE,
            started: false,
        }
    }

    /// Choose which galaxy's data to hand over
    ///
    /// [`Galaxy::LIVE`] by default, so a subscriber records only the live
    /// galaxy unless it asks for the rest.
    pub fn galaxy(self, galaxy: Galaxy) -> (network: Network)
        ensures
            network == (Network { galaxy, ..self }),
    {
        let Network { url, reports, stall, started, .. } = self;
        Network { url, reports, stall, galaxy, started }
    }

    /// Which galaxy's data this hands over.
    pub fn showing(&self) -> (galaxy: Galaxy)
        ensures
            galaxy == self.galaxy,
    {
        self.galaxy
    }

    /// How the stall timeout is said: in seconds, or that it is off.
    pub open spec fn stall_said(self) -> Seq<char> {
        match self.stall {
            Some(stall) => decimal((stall.timeout / SECOND) as nat) + "s"@,
            None => "off"@,
        }
    }

    /// The first read has begun: how the stall timeout is said on the opening
    /// line, and nothing where that line has been said.
    pub fn start(&mut self) -> (stall: Option<String>)
        ensures
            begins(*old(self), *final(self), stall),
    {
        if self.started {
            return None;
        }
        self.started = true;
        Some(
            match &self.stall {
                Some(stall) => decimal_text(stall.timeout() / SECOND).concat("s"),
                None => "off".to_owned(),
            },
        )
    }

    /// What is worth saying about what has happened to the connection.
    pub fn observe(&mut self, events: &Vec<Happening>, now: u128) -> (said: Vec<Note>)
        requires
            old(self).reports.unwarned + events@.len() <= u64::MAX,
        ensures
            *final(self) == (Network {
                reports: old(self).reports.after_all(events@, now),
                ..*old(self)
            }),
            notes_of(said@) == old(self).reports.says_all(events@, now),
    {
        self.reports.observe(events, now)
    }

    /// The connection has been thrown away and a new one taken
    ///
    /// The quiet being measured starts over, and the new connection is not
    /// waiting on a recovery.
    pub fn reconnect(&mut self, now: u128)
        ensures
            *final(self) == old(self).reconnected(now),
    {
        if let Some(stall) = self.stall {
            let mut stall = stall;
            stall.restart(now);
            self.stall = Some(stall);
        }
        self.reports.replaced();
    }

    /// Takes what a receive came back with and says what comes next
    ///
    /// A message ends the quiet being measured, and its frame is handed over
    /// where it carries one. Nothing within the poll interval is the only
    /// chance there is to see how long the quiet has run. Anything else is the
    /// socket itself, and it will keep giving the same answer until it is
    /// replaced.
    pub fn frame(&mut self, heard: Heard, now: u128) -> (turn: Turn)
        ensures
            turns(*old(self), heard, now, *final(self), turn),
    {
        match heard {
            Heard::Message(part, received_at) => {
                if let Some(stall) = self.stall {
                    let mut stall = stall;
                    stall.restart(now);
                    self.stall = Some(stall);
                }
                match part {
                    Some(bytes) => Turn::Hand(Frame { received_at, bytes }),
                    None => Turn::Again,
                }
            },
            Heard::Nothing => {
                let overrun = match &self.stall {
                    Some(stall) => stall.overrun(now),
                    None => None,
                };
                match overrun {
                    Some(quiet) => {
                        let mut reason = "nothing for ".to_owned();
                        let secs = decimal_text(quiet / SECOND);
                        reason.append(secs.as_str());
                        reason.append("s");
                        Turn::Replace(reason, None)
                    },
                    None => Turn::Again,
                }
            },
            Heard::Failed(err) => {
                let reason = "socket error: ".to_owned().concat(err.as_str());
                Turn::Replace(reason, Some(Error::Socket(err)))
            },
        }
    }
}

/// A message that carries a frame is handed over as it came, with the moment it
/// was held, whatever it is; and every message ends the quiet being measured.
pub proof fn a_message_is_handed_over_as_it_came(
    before: Network,
    part: Option<Vec<u8>>,
    received_at: Moment,
    now: u128,
    after: Network,
    turn: Turn,
)
    requires
        turns(before, Heard::Message(part, received_at), now, after, turn),
    ensures
        part is Some ==> turn is Hand && turn->Hand_0.bytes@ == part->0@
            && turn->Hand_0.received_at@ == received_at@,
        part is None ==> turn is Again,
        before.stall is Some ==> after.stall is Some && after.stall->0.quiet_since == now
            && after.stall->0.timeout == before.stall->0.timeout,
        before.stall is None ==> after.stall is None,
        after.url == before.url && after.reports == before.reports && after.galaxy == before.galaxy
            && after.started == before.started,
{
}

/// A connection is thrown away for being quiet exactly where it has carried
/// nothing for as long as it was given, and never where it was given no limit;
/// how long it was is said in whole seconds.
pub proof fn a_quiet_connection_is_waited_out(
    before: Network,
    now: u128,
    after: Network,
    turn: Turn,
)
    requires
        turns(before, Heard::Nothing, now, after, turn),
    ensures
        after == before,
        before.stall is None ==> turn is Again,
        before.stall is Some && now >= before.stall->0.quiet_since ==> {
            let quiet = now - before.stall->0.quiet_since;
            &&& quiet < before.stall->0.timeout ==> turn is Again
            &&& quiet >= before.stall->0.timeout ==> turn is Replace && turn->Replace_1 is None
                && turn->Replace_0@ == "nothing for "@ + decimal((quiet / 1_000_000_000) as nat)
                + "s"@
        },
{
}

/// A socket that fails is thrown away, and what it said is both the reason and
/// what is handed over.
pub proof fn a_failed_socket_is_replaced_and_reported(
    before: Network,
    err: String,
    now: u128,
    after: Network,
    turn: Turn,
)
    requires
        turns(before, Heard::Failed(err), now, after, turn),
    ensures
        after == before,
        turn is Replace,
        turn->Replace_0@ == "socket error: "@ + err@,
        turn->Replace_1 matches Some(Error::Socket(said)) && said@ == err@,
{
}

/// A subscription just opened, or on a connection just taken, is not thrown
/// away before it has been quiet for all the time it was given, and asks for
/// what it asked for before; one just opened asks for the live galaxy.
pub proof fn a_new_connection_is_given_its_time(
    network: Network,
    url: Seq<char>,
    stall_timeout: Option<u128>,
    opened: u128,
    now: u128,
    turn: Turn,
)
    requires
        opened <= now,
        stall_timeout is Some ==> now - opened < stall_timeout->0,
    ensures
        network.is_fresh(url, stall_timeout, opened) ==> {
            &&& turns(network, Heard::Nothing, now, network, turn) ==> turn is Again
            &&& network.url@ == url
            &&& network.galaxy.admits(true) && !network.galaxy.admits(false)
            &&& network.stall is Some <==> stall_timeout is Some
            &&& stall_timeout is Some ==> network.stall->0.timeout == stall_timeout->0
            &&& network.reports.lost_at is None && network.reports.said_at is None
            &&& network.reports.unwarned == 0 && !network.started
        },
        ({
            let taken = network.reconnected(opened);
            &&& network.stall is Some ==> taken.stall is Some && taken.stall->0.timeout
                == network.stall->0.timeout
            &&& network.stall is None ==> taken.stall is None
            &&& network.stall is Some && stall_timeout == Some(network.stall->0.timeout) ==> (turns(
                taken,
                Heard::Nothing,
                now,
                taken,
                turn,
            ) ==> turn is Again)
            &&& taken.reports.lost_at is None
            &&& taken.reports.said_at == network.reports.said_at
            &&& taken.reports.unwarned == network.reports.unwarned
            &&& taken.galaxy == network.galaxy && taken.url == network.url && taken.started
                == network.started
        }),
{
}

/// The opening line is said on the first read and never again, with the stall
/// timeout in whole seconds, or that it is off; and nothing else changes.
pub proof fn the_opening_line_is_said_once(
    before: Network,
    after: Network,
    said: Option<String>,
    secs: nat,
)
    requires
        begins(before, after, said),
    ensures
        said is Some <==> !before.started,
        after.started,
        after == (Network { started: after.started, ..before }),
        said is Some && before.stall is None ==> said->0@ == "off"@,
        said is Some && before.stall is Some && secs * 1_000_000_000 <= before.stall->0.timeout < (
        secs + 1) * 1_000_000_000 ==> said->0@ == decimal(secs) + "s"@,
        forall|again: Network, twice: Option<String>| #[trigger]
            begins(after, again, twice) ==> twice is None && again == after,
{
}

} // verus!
