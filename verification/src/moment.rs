//! Moments in time, and the spans between them.
//!
//! A moment is a count of seconds since the Unix epoch and the nanoseconds
//! past the last of them, which is how [`chrono::DateTime`] in UTC counts it.
//! Nanoseconds run past one second only inside a leap second.

use crate::text::{all_digits, sorts_before};
use vstd::prelude::*;

verus! {

/// The first second [`chrono::DateTime`] can name.
pub const FIRST_SECOND: i64 = -8_334_601_228_800;

/// The last second [`chrono::DateTime`] can name.
pub const LAST_SECOND: i64 = 8_210_266_876_799;

/// Whether seconds and nanoseconds name a moment: in range, and a leap second
/// only where one can be.
pub open spec fn names_moment(secs: int, nanos: int) -> bool {
    &&& FIRST_SECOND <= secs <= LAST_SECOND
    &&& 0 <= nanos < 2_000_000_000
    &&& nanos >= 1_000_000_000 ==> secs % 60 == 59
}

/// A moment in UTC
#[derive(Clone, Copy, Debug, PartialEq, Eq, Structural)]
pub struct Moment {
    secs: i64,
    nanos: u32,
}

impl View for Moment {
    type V = (int, int);

    closed spec fn view(&self) -> (int, int) {
        (self.secs as int, self.nanos as int)
    }
}

impl Moment {
    #[verifier::type_invariant]
    spec fn is_moment(self) -> bool {
        names_moment(self.secs as int, self.nanos as int)
    }

    /// The moment so many seconds after the epoch, where there is one.
    pub fn new(secs: i64, nanos: u32) -> (moment: Option<Moment>)
        ensures
            match moment {
                Some(moment) => moment@ == (secs as int, nanos as int) && names_moment(
                    secs as int,
                    nanos as int,
                ),
                None => !names_moment(secs as int, nanos as int),
            },
    {
        if secs < FIRST_SECOND || secs > LAST_SECOND || nanos >= 2_000_000_000 {
            return None;
        }
        if nanos >= 1_000_000_000 {
            let past: i64 = (secs - FIRST_SECOND) % 60;
            assert(FIRST_SECOND as int % 60 == 0);
            assert((secs - FIRST_SECOND) % 60 == secs as int % 60);
            if past != 59 {
                return None;
            }
        }
        Some(Moment { secs, nanos })
    }

    /// Seconds since the epoch.
    pub fn secs(self) -> (secs: i64)
        ensures
            secs == self@.0,
    {
        self.secs
    }

    /// Nanoseconds past the last whole second.
    pub fn nanos(self) -> (nanos: u32)
        ensures
            nanos == self@.1,
    {
        self.nanos
    }

    /// Whether this moment comes before another.
    pub fn before(self, other: Moment) -> (before: bool)
        ensures
            before == earlier(self@, other@),
    {
        self.secs < other.secs || (self.secs == other.secs && self.nanos < other.nanos)
    }

    /// Nanoseconds since the epoch.
    pub fn since_epoch(self) -> (nanos: i128)
        ensures
            nanos == epoch_nanos(self@),
            names_moment(self@.0, self@.1),
    {
        proof {
            use_type_invariant(&self);
        }
        self.secs as i128 * 1_000_000_000 + self.nanos as i128
    }

    /// Whether this moment comes before the one so many nanoseconds after the
    /// epoch.
    pub fn before_nanos(self, nanos: i128) -> (before: bool)
        requires
            FIRST_SECOND * 1_000_000_000 <= nanos < (LAST_SECOND + 1) * 1_000_000_000,
        ensures
            before == earlier(self@, moment_at(nanos as int)),
    {
        let wide: i128 = nanos - FIRST_SECOND as i128 * 1_000_000_000;
        let secs: i128 = wide / 1_000_000_000 + FIRST_SECOND as i128;
        let rest: i128 = wide % 1_000_000_000;
        assert(secs == nanos as int / 1_000_000_000);
        assert(rest == nanos as int % 1_000_000_000);
        (self.secs as i128) < secs || (self.secs as i128 == secs && (self.nanos as i128) < rest)
    }

    /// Nanoseconds since the epoch, where they fit in an `i64`.
    pub fn timestamp_nanos(self) -> (nanos: Option<i64>)
        ensures
            match nanos {
                Some(nanos) => nanos == epoch_nanos(self@),
                None => !in_nanosecond_era(self@),
            },
    {
        let nanos = self.since_epoch();
        if i64::MIN as i128 <= nanos && nanos <= i64::MAX as i128 {
            Some(nanos as i64)
        } else {
            None
        }
    }

    /// The moment a count of nanoseconds since the epoch names.
    pub fn from_nanos(nanos: i64) -> (moment: Moment)
        ensures
            moment@ == moment_at(nanos as int),
    {
        let wide: i128 = nanos as i128 + 9_223_372_037 * 1_000_000_000;
        let secs: i64 = (wide / 1_000_000_000 - 9_223_372_037) as i64;
        let rest: u32 = (wide % 1_000_000_000) as u32;
        assert(secs == nanos as int / 1_000_000_000);
        assert(rest == nanos as int % 1_000_000_000);
        Moment { secs, nanos: rest }
    }

    /// How long after `earlier` this moment comes.
    pub fn since(self, earlier: Moment) -> (span: Span)
        ensures
            span.is_span(),
            span.total() == nanos_between(self@, earlier@),
    {
        difference(self, earlier)
    }
}

/// Two moments that count the same are the same.
pub proof fn moments_are_their_counts(a: Moment, b: Moment)
    requires
        a@ == b@,
    ensures
        a == b,
{
}

/// Whether one moment comes before another.
pub open spec fn earlier(a: (int, int), b: (int, int)) -> bool {
    a.0 < b.0 || (a.0 == b.0 && a.1 < b.1)
}

/// Nanoseconds since the epoch.
pub open spec fn epoch_nanos(at: (int, int)) -> int {
    at.0 * 1_000_000_000 + at.1
}

/// Whether a moment's nanoseconds since the epoch fit in an `i64`.
pub open spec fn in_nanosecond_era(at: (int, int)) -> bool {
    i64::MIN <= epoch_nanos(at) <= i64::MAX
}

/// The moment so many nanoseconds after the epoch.
pub open spec fn moment_at(nanos: int) -> (int, int) {
    (nanos / 1_000_000_000, nanos % 1_000_000_000)
}

/// Outside leap seconds, one moment comes before another where fewer
/// nanoseconds have passed by it.
pub proof fn moments_are_ordered_by_their_nanoseconds(a: (int, int), b: (int, int))
    requires
        0 <= a.1 < 1_000_000_000,
        0 <= b.1 < 1_000_000_000,
    ensures
        earlier(a, b) <==> epoch_nanos(a) < epoch_nanos(b),
{
}

/// Moments come one after another: of two, one comes before the other unless
/// they are the same, and what comes before an earlier one comes before a later.
pub proof fn moments_come_in_order(a: (int, int), b: (int, int), c: (int, int))
    ensures
        !earlier(a, a),
        a != b ==> earlier(a, b) || earlier(b, a),
        earlier(a, b) && earlier(b, c) ==> earlier(a, c),
        a.0 < b.0 ==> earlier(a, b),
{
}

/// A moment outside any leap second is read back from its nanoseconds.
pub proof fn nanoseconds_round_trip(at: (int, int))
    requires
        0 <= at.1 < 1_000_000_000,
    ensures
        moment_at(epoch_nanos(at)) == at,
{
}

/// A signed length of time: whole seconds, and the nanoseconds left over, with
/// the sign of the whole on both.
#[derive(Clone, Copy, Debug, PartialEq, Eq, Structural)]
pub struct Span {
    pub secs: i64,
    pub nanos: i32,
}

impl Span {
    /// The whole length, in nanoseconds.
    pub open spec fn total(self) -> int {
        self.secs * 1_000_000_000 + self.nanos
    }

    /// Whether the leftover nanoseconds are under a second and of one sign
    /// with the seconds.
    pub open spec fn is_span(self) -> bool {
        &&& -1_000_000_000 < self.nanos < 1_000_000_000
        &&& self.secs > 0 ==> self.nanos >= 0
        &&& self.secs < 0 ==> self.nanos <= 0
    }
}

/// The nanoseconds from one moment to another, counting a leap second at the
/// earlier time of day once it is over.
pub open spec fn nanos_between(later: (int, int), earlier: (int, int)) -> int {
    let past_midnight = later.0 % 86_400;
    let from_midnight = earlier.0 % 86_400;
    let leapt: int = if past_midnight > from_midnight && earlier.1 >= 1_000_000_000 {
        1
    } else if past_midnight < from_midnight && later.1 >= 1_000_000_000 {
        -1
    } else {
        0
    };
    (later.0 - earlier.0 + leapt) * 1_000_000_000 + (later.1 - earlier.1)
}

/// Outside leap seconds, the span between two moments is the difference of
/// their nanoseconds since the epoch.
pub proof fn spans_are_differences(later: (int, int), earlier: (int, int))
    requires
        later.1 < 1_000_000_000,
        earlier.1 < 1_000_000_000,
    ensures
        nanos_between(later, earlier) == epoch_nanos(later) - epoch_nanos(earlier),
{
}

/// Subtracts with [`chrono::DateTime`]'s own `-`
///
/// The contract claims what its `signed_duration_since` computes: the
/// difference of the two counts, with a leap second counted where one of them
/// lies inside it and the times of day are apart; read off the result by
/// `num_seconds` and `subsec_nanos`, which round toward zero.
#[verifier::external_body]
fn difference(later: Moment, earlier: Moment) -> (span: Span)
    ensures
        span.is_span(),
        span.total() == nanos_between(later@, earlier@),
{
    let later = chrono::DateTime::from_timestamp(later.secs, later.nanos).expect("a moment");
    let earlier = chrono::DateTime::from_timestamp(earlier.secs, earlier.nanos).expect("a moment");
    let delta = later - earlier;
    Span { secs: delta.num_seconds(), nanos: delta.subsec_nanos() }
}

/// The format a segment is named in: the UTC hour.
pub const HOUR_FORMAT: &'static str = "%Y%m%d%H";

/// The format of a whole second without separators.
pub const SECOND_FORMAT: &'static str = "%Y%m%d%H%M%S";

/// The format a UTC moment is shown in.
pub const TIMESTAMP_FORMAT: &'static str = "%Y-%m-%d %H:%M:%SZ";

/// The same in local time: no `Z`, since the value is no longer UTC.
pub const LOCAL_FORMAT: &'static str = "%Y-%m-%d %H:%M:%S";

/// The format of the time of day on a log line.
pub const CLOCK_FORMAT: &'static str = "%H:%M:%SZ";

/// A moment spelled in one of the formats above, as [`chrono`] spells it.
pub uninterp spec fn spelled(at: (int, int), format: Seq<char>) -> Seq<char>;

/// Whether a moment falls in a year written with four digits.
pub open spec fn four_digit_year(secs: int) -> bool {
    -62_167_219_200 <= secs <= 253_402_300_799
}

/// Spells a moment in UTC with [`chrono::DateTime::format`]
///
/// The contract names the text, which depends on the moment and the format
/// alone. Of the timestamp format it claims that it writes what the format
/// without its `Z` does and then the `Z`, and of the hour format what zero-padded
/// fields from the year down to the hour give in a year of four digits: ten
/// digits, which sort as the hours do.
#[verifier::external_body]
fn format_utc(at: Moment, format: &str) -> (text: String)
    requires
        format@ == HOUR_FORMAT@ || format@ == TIMESTAMP_FORMAT@ || format@ == CLOCK_FORMAT@,
    ensures
        text@ == spelled(at@, format@),
        format@ == TIMESTAMP_FORMAT@ ==> text@ == spelled(at@, LOCAL_FORMAT@) + "Z"@,
        format@ == HOUR_FORMAT@ && four_digit_year(at@.0) ==> text@.len() == 10
            && all_digits(text@),
        forall|other: (int, int)|
            format@ == HOUR_FORMAT@ && four_digit_year(at@.0) && four_digit_year(other.0)
                && names_moment(other.0, other.1) ==> (sorts_before(
                text@,
                #[trigger] spelled(other, HOUR_FORMAT@),
            ) <==> at@.0 / 3600 < other.0 / 3600),
{
    let at = chrono::DateTime::from_timestamp(at.secs, at.nanos).expect("a moment");
    at.format(format).to_string()
}

/// The moment whose UTC clock reads what a clock so many seconds ahead of UTC
/// reads at another.
pub open spec fn shifted(at: (int, int), offset: int) -> (int, int) {
    (at.0 + offset, at.1)
}

/// Whether a moment is outside any leap second and a day or more from either
/// end of what can be named, so that every time zone has a name for it.
pub open spec fn zoned(at: (int, int)) -> bool {
    &&& FIRST_SECOND + 86_400 <= at.0 <= LAST_SECOND - 86_400
    &&& at.1 < 1_000_000_000
}

/// Whether a text is a moment in local time, by a clock less than a day from
/// UTC.
pub open spec fn is_local_time(text: Seq<char>, at: (int, int)) -> bool {
    exists|offset: int|
        -86_400 < offset < 86_400 && text == spelled(#[trigger] shifted(at, offset), LOCAL_FORMAT@)
}

/// Spells a moment in the machine's time zone with [`chrono::Local`]
///
/// The contract claims that the text ends in a digit of its seconds, and that
/// it is the moment as a clock set less than a day from UTC reads it, in the
/// local format. How far from UTC is the machine's time zone to say. Inside a
/// leap second, and within a day of the first and the last moment that can be
/// named, no more is claimed than the last digit.
#[verifier::external_body]
fn format_local(at: Moment) -> (text: String)
    ensures
        text@.len() > 0,
        '0' <= text@.last() <= '9',
        zoned(at@) ==> is_local_time(text@, at@),
{
    let at = chrono::DateTime::from_timestamp(at.secs, at.nanos).expect("a moment");
    at.with_timezone(&chrono::Local).format(LOCAL_FORMAT).to_string()
}

/// A moment in RFC 3339, as [`chrono`] writes it.
pub uninterp spec fn rfc3339(at: (int, int)) -> Seq<char>;

/// Spells a moment with [`chrono::DateTime::to_rfc3339`]
///
/// The contract names the text, which depends on the moment alone.
#[verifier::external_body]
fn format_rfc3339(at: Moment) -> (text: String)
    ensures
        text@ == rfc3339(at@),
{
    let at = chrono::DateTime::from_timestamp(at.secs, at.nanos).expect("a moment");
    at.to_rfc3339()
}

/// The moment a text spells, as [`chrono::DateTime`]'s `FromStr` reads one.
pub uninterp spec fn moment_spelled(text: Seq<char>) -> Option<(int, int)>;

/// Reads a moment with [`chrono::DateTime`]'s `FromStr` in UTC
///
/// The contract names the result, which depends on the text alone, and claims
/// that what is read is a moment `chrono` can name.
#[verifier::external_body]
fn parse_relaxed(text: &str) -> (read: Option<(i64, u32)>)
    ensures
        match read {
            Some((secs, nanos)) => moment_spelled(text@) == Some((secs as int, nanos as int))
                && names_moment(secs as int, nanos as int),
            None => moment_spelled(text@) is None,
        },
{
    let read = text.parse::<chrono::DateTime<chrono::Utc>>().ok()?;
    Some((read.timestamp(), read.timestamp_subsec_nanos()))
}

/// The second a text spells without separators, read as UTC.
pub uninterp spec fn second_spelled(text: Seq<char>) -> Option<(int, int)>;

/// Reads a second with [`chrono::NaiveDateTime::parse_from_str`]
///
/// The contract names the result, which depends on the text alone, and claims
/// that what is read is a moment `chrono` can name. It claims that an hour as
/// [`format_utc`] spells it, with zero minutes and seconds written after it,
/// reads back as the start of that hour.
#[verifier::external_body]
fn parse_second(text: &str) -> (read: Option<(i64, u32)>)
    ensures
        match read {
            Some((secs, nanos)) => second_spelled(text@) == Some((secs as int, nanos as int))
                && names_moment(secs as int, nanos as int),
            None => second_spelled(text@) is None,
        },
        forall|at: (int, int)|
            four_digit_year(at.0) && names_moment(at.0, at.1) && text@ == #[trigger] spelled(
                at,
                HOUR_FORMAT@,
            ) + "0000"@ ==> read == Some(((at.0 - at.0 % 3600) as i64, 0u32)),
{
    let read = chrono::NaiveDateTime::parse_from_str(text, SECOND_FORMAT).ok()?.and_utc();
    Some((read.timestamp(), read.timestamp_subsec_nanos()))
}

/// The UTC hour of a moment, spelled so that names sort as hours do.
pub fn hour_text(at: Moment) -> (text: String)
    ensures
        text@ == spelled(at@, HOUR_FORMAT@),
        four_digit_year(at@.0) ==> text@.len() == 10 && all_digits(text@),
        forall|other: (int, int)|
            four_digit_year(at@.0) && four_digit_year(other.0) && names_moment(other.0, other.1)
                ==> (sorts_before(text@, #[trigger] spelled(other, HOUR_FORMAT@))
                <==> at@.0 / 3600 < other.0 / 3600),
{
    format_utc(at, HOUR_FORMAT)
}

/// The time of day of a moment, as a log line shows it.
pub fn clock_text(at: Moment) -> (text: String)
    ensures
        text@ == spelled(at@, CLOCK_FORMAT@),
{
    format_utc(at, CLOCK_FORMAT)
}

/// A moment in RFC 3339.
pub fn rfc3339_text(at: Moment) -> (text: String)
    ensures
        text@ == rfc3339(at@),
{
    format_rfc3339(at)
}

/// Whether a text shows a moment: as it is spelled in UTC, or as the machine's
/// own clock reads it, which leaves off the `Z`.
pub open spec fn shows_time(text: Seq<char>, at: (int, int), local: bool) -> bool {
    if local {
        &&& text.len() > 0 && text.last() != 'Z'
        &&& zoned(at) ==> is_local_time(text, at)
    } else {
        text == spelled(at, TIMESTAMP_FORMAT@)
    }
}

/// A UTC moment spelled for display: UTC with a `Z`, or the machine's local
/// time without one when `local` is set
///
/// The wall clock and both time columns all read through here, so flipping
/// the toggle moves them together. The two show one moment: the local text is
/// what the UTC one would be, less its `Z`, at a moment less than a day away.
/// How far away is the machine's time zone to say.
pub fn format_time(when: Moment, local: bool) -> (text: String)
    ensures
        shows_time(text@, when@, local),
        text@.len() > 0,
        text@.last() == 'Z' <==> !local,
        !local ==> text@ == spelled(when@, LOCAL_FORMAT@) + "Z"@,
{
    proof {
        reveal_strlit("Z");
    }
    if local {
        format_local(when)
    } else {
        format_utc(when, TIMESTAMP_FORMAT)
    }
}

/// Reads a moment in the relaxed RFC 3339 the game writes.
pub fn read_moment(text: &str) -> (moment: Option<Moment>)
    ensures
        match moment {
            Some(moment) => moment_spelled(text@) == Some(moment@),
            None => moment_spelled(text@) is None,
        },
{
    match parse_relaxed(text) {
        Some((secs, nanos)) => Moment::new(secs, nanos),
        None => None,
    }
}

/// Reads a second written without separators.
pub fn read_second(text: &str) -> (moment: Option<Moment>)
    ensures
        match moment {
            Some(moment) => second_spelled(text@) == Some(moment@),
            None => second_spelled(text@) is None,
        },
        forall|at: (int, int)|
            four_digit_year(at.0) && names_moment(at.0, at.1) && text@ == #[trigger] spelled(
                at,
                HOUR_FORMAT@,
            ) + "0000"@ ==> moment is Some && moment->0@ == (at.0 - at.0 % 3600, 0int),
{
    match parse_second(text) {
        Some((secs, nanos)) => Moment::new(secs, nanos),
        None => None,
    }
}

/// Whatever nanoseconds have passed, they are read back from the moment they
/// make, which is never inside a leap second.
pub proof fn nanoseconds_make_a_moment(nanos: int)
    ensures
        epoch_nanos(moment_at(nanos)) == nanos,
        0 <= moment_at(nanos).1 < 1_000_000_000,
        moment_at(0) == (0int, 0int),
        epoch_nanos((1, 0)) == 1_000_000_000,
{
}

/// A time is shown to the second with its date, in UTC with a `Z` after it or
/// in local time without one.
pub proof fn a_time_is_shown_to_the_second(text: Seq<char>, at: (int, int))
    ensures
        shows_time(text, at, false) <==> text == spelled(at, "%Y-%m-%d %H:%M:%SZ"@),
        shows_time(text, at, true) && zoned(at) ==> exists|offset: int|
            -86_400 < offset < 86_400 && text == #[trigger] spelled(
                (at.0 + offset, at.1),
                "%Y-%m-%d %H:%M:%S"@,
            ),
        shows_time(text, at, true) ==> text.len() > 0 && text.last() != 'Z',
{
    if shows_time(text, at, true) && zoned(at) {
        let offset = choose|offset: int|
            -86_400 < offset < 86_400 && text == spelled(
                #[trigger] shifted(at, offset),
                LOCAL_FORMAT@,
            );
        assert(text == spelled((at.0 + offset, at.1), "%Y-%m-%d %H:%M:%S"@));
    }
}

} // verus!
