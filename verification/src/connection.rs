//! How long the connection may do nothing, and how it is rebuilt.

use omq_tokio::{Options, ReconnectPolicy};
use std::time::Duration;
use vstd::prelude::*;

verus! {

/// How long a receive waits before coming back empty, in seconds
///
/// Only so that a subscriber with nothing to read still gets to look at the
/// clock, and can tell how long the quiet has gone on.
pub const POLL_INTERVAL: u64 = 1;

/// The shortest wait before a connection that has closed is rebuilt, in
/// seconds
///
/// The wait starts here, doubles on each attempt that fails, and stops
/// growing at [`RECONNECT_MAX`]. It also starts over from here whenever a
/// connection is made, which is why the floor carries more weight than the
/// ceiling.
pub const RECONNECT_MIN: u64 = 1;

/// The longest wait before a connection that has closed is rebuilt, in
/// seconds.
pub const RECONNECT_MAX: u64 = 15;

/// How often to ping the gateway, in seconds
///
/// A ping is a write, and a write is what turns a connection that has died
/// without closing into something the socket can see. With [`IDLE_TIMEOUT`]
/// this is how long that goes unnoticed, so 15 seconds.
pub const PING_INTERVAL: u64 = 5;

/// How long to wait for anything back after a ping, in seconds
///
/// Nothing arriving inside this and the connection is given up and another
/// built.
pub const IDLE_TIMEOUT: u64 = 10;

/// How many nanoseconds a second is.
pub const SECOND: u128 = 1_000_000_000;

/// What [`omq_tokio`] opens a socket with.
#[verifier::external_type_specification]
#[verifier::external_body]
pub struct ExOptions(omq_tokio::Options);

/// The timings a socket is opened with, in seconds
#[derive(Clone, Copy, Debug, PartialEq, Eq, Structural)]
pub struct Timings {
    /// The shortest wait before a closed connection is rebuilt, doubling from
    /// there.
    pub reconnect_min: u64,
    /// The longest such wait.
    pub reconnect_max: u64,
    /// How often a ping is sent.
    pub heartbeat_interval: u64,
    /// How long anything back is waited for after one.
    pub heartbeat_timeout: u64,
}

/// The timings some options hold, where they rebuild a closed connection at a
/// doubling interval and ping an open one.
pub uninterp spec fn timings_of(options: Options) -> Option<Timings>;

/// Builds [`omq_tokio::Options`] from the defaults with
/// [`Options::reconnect`], [`Options::heartbeat_interval`] and
/// [`Options::heartbeat_timeout`]
///
/// The contract claims that the options hold the timings they were built from,
/// and says nothing of what the defaults are.
#[verifier::external_body]
fn build_options(timings: Timings) -> (options: Options)
    ensures
        timings_of(options) == Some(timings),
{
    Options::new().reconnect(ReconnectPolicy::Exponential {
        min: Duration::from_secs(timings.reconnect_min),
        max: Duration::from_secs(timings.reconnect_max),
    })
    .heartbeat_interval(Duration::from_secs(timings.heartbeat_interval))
    .heartbeat_timeout(Duration::from_secs(timings.heartbeat_timeout))
}

/// Whether a socket subscribed to EDDN is opened with some options.
pub open spec fn is_opened_with(options: Options) -> bool {
    timings_of(options) == Some(
        Timings {
            reconnect_min: RECONNECT_MIN,
            reconnect_max: RECONNECT_MAX,
            heartbeat_interval: PING_INTERVAL,
            heartbeat_timeout: IDLE_TIMEOUT,
        },
    )
}

/// What a socket subscribed to EDDN is opened with
///
/// Everything the connection's health depends on is here rather than left to a
/// default, since the defaults are for a peer on a LAN that answers.
pub fn options() -> (options: Options)
    ensures
        is_opened_with(options),
{
    build_options(
        Timings {
            reconnect_min: RECONNECT_MIN,
            reconnect_max: RECONNECT_MAX,
            heartbeat_interval: PING_INTERVAL,
            heartbeat_timeout: IDLE_TIMEOUT,
        },
    )
}

/// How long has passed between two readings of a monotonic clock, and nothing
/// where the later one reads earlier.
pub open spec fn since(now: u128, then: u128) -> u128 {
    if now >= then {
        (now - then) as u128
    } else {
        0
    }
}

/// How long has passed since a reading of a monotonic clock.
pub fn elapsed(now: u128, then: u128) -> (passed: u128)
    ensures
        passed == since(now, then),
{
    if now >= then { now - then } else { 0 }
}

/// How long the connection has carried nothing, and how long is too long
///
/// Times are readings of a monotonic clock and lengths of time, both in
/// nanoseconds.
#[derive(Clone, Copy, Debug)]
pub struct Stall {
    /// How long the quiet may run.
    pub timeout: u128,
    /// When the quiet period being measured began.
    pub quiet_since: u128,
}

impl Stall {
    /// A quiet period that may run so long, measured from now.
    pub open spec fn measured(timeout: u128, now: u128) -> Stall {
        Stall { timeout, quiet_since: now }
    }

    /// This quiet period started again from now.
    pub open spec fn restarted(self, now: u128) -> Stall {
        Stall { timeout: self.timeout, quiet_since: now }
    }

    /// Start measuring from now.
    pub fn new(timeout: u128, now: u128) -> (stall: Self)
        ensures
            stall == Stall::measured(timeout, now),
    {
        Stall { timeout, quiet_since: now }
    }

    /// The quiet period starts again from now
    ///
    /// A message ends one. So does replacing the connection, which has not
    /// yet had the chance to carry a message.
    pub fn restart(&mut self, now: u128)
        ensures
            *final(self) == old(self).restarted(now),
    {
        self.quiet_since = now;
    }

    /// How long the quiet period may run.
    pub fn timeout(&self) -> (timeout: u128)
        ensures
            timeout == self.timeout,
    {
        self.timeout
    }

    /// Whether the quiet has run too long by now.
    pub open spec fn overran(self, now: u128) -> bool {
        since(now, self.quiet_since) >= self.timeout
    }

    /// How long the quiet period has run, once it has run too long.
    pub open spec fn overrun_by(self, now: u128) -> Option<u128> {
        if self.overran(now) {
            Some(since(now, self.quiet_since))
        } else {
            None
        }
    }

    /// How long the quiet period has run, once it has run too long.
    pub fn overrun(&self, now: u128) -> (quiet: Option<u128>)
        ensures
            quiet == self.overrun_by(now),
    {
        let quiet = elapsed(now, self.quiet_since);
        if quiet >= self.timeout {
            Some(quiet)
        } else {
            None
        }
    }
}

/// A quiet period that has just been started over has not run too long, where
/// it is given any time at all.
pub proof fn a_restart_ends_an_overrun(stall: Stall, now: u128)
    requires
        stall.timeout > 0,
    ensures
        !(Stall { timeout: stall.timeout, quiet_since: now }).overran(now),
{
}

/// What has passed since a reading is what the clock has gone on by, and a
/// clock that reads earlier has not gone on.
pub proof fn what_has_passed_is_how_far_the_clock_went(then: u128, passed: u128, earlier: u128)
    requires
        then + passed <= 0xffff_ffff_ffff_ffff_ffff_ffff_ffff_ffff,
        earlier <= then,
    ensures
        since((then + passed) as u128, then) == passed,
        since(earlier, then) == 0,
{
}

/// A quiet period overruns as soon as it has run as long as it may and not
/// before, and how long it has run is then said.
pub proof fn quiet_overruns_when_its_time_is_up(stall: Stall, quiet: u128)
    requires
        stall.quiet_since + quiet <= 0xffff_ffff_ffff_ffff_ffff_ffff_ffff_ffff,
    ensures
        ({
            let now = (stall.quiet_since + quiet) as u128;
            &&& stall.overran(now) <==> quiet >= stall.timeout
            &&& stall.overrun_by(now) == if quiet >= stall.timeout {
                Some(quiet)
            } else {
                None
            }
        }),
{
}

/// A socket is rebuilt within fifteen seconds of closing, never oftener than
/// each second, and one that has died without closing is found out within
/// fifteen seconds.
pub proof fn a_dead_connection_is_soon_found_out(options: Options)
    requires
        is_opened_with(options),
    ensures
        timings_of(options) is Some,
        timings_of(options)->0.reconnect_min == 1,
        timings_of(options)->0.reconnect_max == 15,
        timings_of(options)->0.heartbeat_interval == 5,
        timings_of(options)->0.heartbeat_timeout == 10,
{
}

/// A quiet period that is measured from now on has all of its time, whether it
/// is the first or starts over.
pub proof fn a_quiet_period_is_given_all_its_time(
    stall: Stall,
    timeout: u128,
    now: u128,
    quiet: u128,
)
    requires
        now + quiet <= 0xffff_ffff_ffff_ffff_ffff_ffff_ffff_ffff,
    ensures
        ({
            let later = (now + quiet) as u128;
            &&& Stall::measured(timeout, now).overran(later) <==> quiet >= timeout
            &&& stall.restarted(now).overran(later) <==> quiet >= stall.timeout
            &&& stall.restarted(now).timeout == stall.timeout
        }),
{
}

} // verus!
