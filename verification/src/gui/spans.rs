//! Lengths of time, as a viewer spells them.

use crate::connection::SECOND;
use crate::moment::Span;
use crate::spool::recorder::LONGEST_WINDOW;
use crate::text::{decimal, decimal_text};
use vstd::prelude::*;
use vstd::string::StringExecFns;

verus! {

/// So many seconds as the two largest units they come to: hours and minutes,
/// minutes and seconds, or seconds.
pub open spec fn span_text(secs: nat) -> Seq<char> {
    if secs >= 3600 {
        decimal(secs / 3600) + "h"@ + decimal((secs % 3600) / 60) + "m"@
    } else if secs >= 60 {
        decimal(secs / 60) + "m"@ + decimal(secs % 60) + "s"@
    } else {
        decimal(secs) + "s"@
    }
}

/// So many seconds, a negative count as none at all.
pub open spec fn floored(secs: int) -> Seq<char> {
    span_text(
        if secs < 0 {
            0
        } else {
            secs as nat
        },
    )
}

/// So many seconds, with a sign before a negative count.
pub open spec fn signed_span(secs: int) -> Seq<char> {
    if secs < 0 {
        "-"@ + span_text((-secs) as nat)
    } else {
        span_text(secs as nat)
    }
}

/// So many seconds in their largest units.
fn spell(secs: u128) -> (text: String)
    ensures
        text@ == span_text(secs as nat),
{
    if secs >= 3600 {
        let mut text = decimal_text(secs / 3600).concat("h");
        let minutes = decimal_text((secs % 3600) / 60);
        text.append(minutes.as_str());
        text.append("m");
        text
    } else if secs >= 60 {
        let mut text = decimal_text(secs / 60).concat("m");
        let rest = decimal_text(secs % 60);
        text.append(rest.as_str());
        text.append("s");
        text
    } else {
        decimal_text(secs).concat("s")
    }
}

/// A compact rendering of how long the retained window spans, e.g. `2m41s`.
pub fn format_span(span: Span) -> (text: String)
    ensures
        text@ == floored(span.secs as int),
{
    if span.secs < 0 {
        spell(0)
    } else {
        spell(span.secs as u128)
    }
}

/// The gateway-minus-event span, e.g. `2m41s`, or `-3s` where the sender's
/// clock runs ahead of the gateway's
///
/// [`format_span`] floors at zero, so the sign is carried here: without it a
/// clock skew that makes the gateway look earlier than the event would read as
/// `0s` rather than showing that it happened.
pub fn format_delta(delta: Span) -> (text: String)
    ensures
        text@ == signed_span(delta.secs as int),
{
    if delta.secs < 0 {
        let mut text = "-".to_owned();
        let rest = spell((-(delta.secs as i128)) as u128);
        text.append(rest.as_str());
        text
    } else {
        spell(delta.secs as u128)
    }
}

/// What is said of a connection gap, in nanoseconds; one longer than can be
/// counted reads as none at all.
pub open spec fn gap_said(gap: u128) -> Seq<char> {
    "connection gap "@ + span_text(
        if gap <= LONGEST_WINDOW {
            (gap / SECOND) as nat
        } else {
            0
        },
    )
}

/// What is said of a connection gap.
pub fn gap_text(gap: u128) -> (text: String)
    ensures
        text@ == gap_said(gap),
{
    let secs: u128 = if gap <= LONGEST_WINDOW { gap / SECOND } else { 0 };
    let span = spell(secs);
    "connection gap ".to_owned().concat(span.as_str())
}

/// A length of time is said in its two largest units: an hour or more in hours
/// and minutes, a minute or more in minutes and seconds, and less in seconds.
pub proof fn a_span_is_said_in_its_largest_units(hours: nat, minutes: nat, secs: nat)
    requires
        minutes < 60,
        secs < 60,
    ensures
        hours > 0 ==> span_text(hours * 3600 + minutes * 60 + secs) == decimal(hours) + "h"@
            + decimal(minutes) + "m"@,
        minutes > 0 ==> span_text(minutes * 60 + secs) == decimal(minutes) + "m"@ + decimal(secs)
            + "s"@,
        span_text(secs) == decimal(secs) + "s"@,
{
    let all = hours * 3600 + minutes * 60 + secs;
    assert(all / 3600 == hours && (all % 3600) / 60 == minutes) by (nonlinear_arith)
        requires
            all == hours * 3600 + minutes * 60 + secs,
            minutes < 60,
            secs < 60,
    ;
}

/// A window's span is never said to be negative, and a delta says its sign
/// before what it would say without one.
pub proof fn a_negative_span_is_floored_or_signed(secs: int)
    ensures
        secs >= 0 ==> floored(secs) == span_text(secs as nat) && signed_span(secs) == span_text(
            secs as nat,
        ),
        secs < 0 ==> floored(secs) == span_text(0) && signed_span(secs) == "-"@ + span_text(
            (-secs) as nat,
        ),
{
}

/// A connection gap is said in whole seconds, in its largest units.
pub proof fn a_gap_is_said_as_a_span(gap: u128, secs: nat)
    requires
        gap <= 9_223_372_036_854_775_807_000_000,
        secs * 1_000_000_000 <= gap < (secs + 1) * 1_000_000_000,
    ensures
        gap_said(gap) == "connection gap "@ + span_text(secs),
{
    assert(gap as nat / 1_000_000_000 == secs);
}

/// A gap longer than can be counted is said as none at all.
pub proof fn a_gap_past_counting_is_said_as_none(gap: u128)
    requires
        gap > 9_223_372_036_854_775_807_000_000,
    ensures
        gap_said(gap) == "connection gap "@ + span_text(0),
{
}

} // verus!
