//! A bounded, in-memory view of what the socket has carried
//!
//! A subscription yields envelopes forever, and anything showing them to
//! someone has to keep only so many and say something about the rest. [`Feed`]
//! is that: a newest-last window of envelopes, the count of everything that has
//! gone through it whether it was kept or not, and a tally per schema. It holds
//! no clock and no socket, so a consumer's idea of what the feed has done can be
//! built and checked without either.

use crate::envelope::Envelope;
use crate::galaxy::Galaxy;
use crate::gui::tally::{by_name, counted_once, sum, Counts, Tally, TallyView};
use crate::journal::Sighting;
use crate::message::Message;
use crate::moment::{nanos_between, spans_are_differences, Span};
use crate::names::{family_of, schema_family};
use crate::text::{
    a_part_stands_in_the_whole, a_text_is_strung_last, holds, lower, lowered, spaced, stands_at,
    texts, what_a_part_holds_the_whole_holds,
};
use std::collections::VecDeque;
use vstd::prelude::*;
use vstd::string::StringExecFns;

verus! {

broadcast use {
    vstd::std_specs::hash::group_hash_axioms,
    vstd::std_specs::vecdeque::axiom_spec_len,
};

/// How many envelopes a [`Feed`] keeps unless told otherwise
///
/// EDDN at a busy hour carries 31 messages a second, so this is about three
/// minutes of history: enough to scroll back through what just happened without
/// the window growing without bound behind a running program.
pub const DEFAULT_CAPACITY: usize = 5000;

/// A retained envelope and the lowercased text a filter searches it by
///
/// The search text is built once, when the envelope is pushed, from the same
/// fields the columns show plus the uploader. So filtering reads a ready string
/// rather than re-deriving one for every row on every frame.
#[derive(Debug)]
pub struct Kept {
    pub envelope: Envelope,
    pub search: String,
    /// The connection gap this envelope arrived after, in nanoseconds, if it
    /// followed a stall, marking the row where the feed resumed.
    pub gap: Option<u128>,
}

/// A bounded history of envelopes with running totals
///
/// The window is the last `capacity` envelopes, newest last. The totals count
/// everything ever pushed, so a schema's tally keeps climbing after the
/// envelopes that made it have fallen out of the window.
pub struct Feed {
    capacity: usize,
    kept: VecDeque<Kept>,
    received: u64,
    errors: u64,
    per_schema: Counts,
    per_software: Counts,
    systems: Tally<i64>,
    bodies: Tally<i128>,
    stations: Tally<i64>,
}

/// A retained row, as [`Feed::rows`] hands it over
#[derive(Clone, Copy, Debug)]
pub struct Row<'a> {
    pub envelope: &'a Envelope,
    pub search: &'a str,
    pub gap: Option<u128>,
}

/// A retained envelope, the text it is searched by, and the gap it followed
pub struct RowView {
    pub envelope: Envelope,
    pub search: Seq<char>,
    pub gap: Option<u128>,
}

impl<'a> View for Row<'a> {
    type V = RowView;

    open spec fn view(&self) -> RowView {
        RowView { envelope: *self.envelope, search: self.search@, gap: self.gap }
    }
}

/// A feed's window and totals
pub struct FeedView {
    /// How many envelopes the window holds at most.
    pub capacity: nat,
    /// The window, oldest first.
    pub kept: Seq<RowView>,
    /// How many envelopes have ever been pushed.
    pub received: nat,
    /// How many unreadable messages have been counted.
    pub errors: nat,
    /// Everything pushed, by schema family.
    pub per_schema: Seq<(Seq<char>, u64)>,
    /// Everything pushed, by the software that sent it.
    pub per_software: Seq<(Seq<char>, u64)>,
    /// The systems named, by address.
    pub systems: TallyView<i64>,
    /// The bodies named, by [`body_key`].
    pub bodies: TallyView<i128>,
    /// The stations named, by market.
    pub stations: TallyView<i64>,
}

/// The rows of some retained envelopes.
pub open spec fn rows_of(kept: Seq<Kept>) -> Seq<RowView> {
    Seq::new(
        kept.len(),
        |i: int|
            RowView { envelope: kept[i].envelope, search: kept[i].search@, gap: kept[i].gap },
    )
}

impl View for Feed {
    type V = FeedView;

    closed spec fn view(&self) -> FeedView {
        FeedView {
            capacity: self.capacity as nat,
            kept: rows_of(self.kept@),
            received: self.received as nat,
            errors: self.errors as nat,
            per_schema: self.per_schema@,
            per_software: self.per_software@,
            systems: self.systems@,
            bodies: self.bodies@,
            stations: self.stations@,
        }
    }
}

impl FeedView {
    /// A feed that nothing has gone through.
    pub open spec fn empty(capacity: nat) -> FeedView {
        FeedView {
            capacity,
            kept: Seq::empty(),
            received: 0,
            errors: 0,
            per_schema: Seq::empty(),
            per_software: Seq::empty(),
            systems: TallyView::none(),
            bodies: TallyView::none(),
            stations: TallyView::none(),
        }
    }

    /// Whether the window is bounded by its capacity and by what was received,
    /// and the counts by name stand in order and come to what was received.
    pub open spec fn is_feed(self) -> bool {
        &&& self.kept.len() <= self.capacity
        &&& self.kept.len() <= self.received
        &&& by_name(self.per_schema)
        &&& sum(self.per_schema) == self.received
        &&& by_name(self.per_software)
        &&& sum(self.per_software) == self.received
    }
}

/// One number for a body: its system's address, and its id within it.
pub open spec fn body_key(system: i64, body: i16) -> i128 {
    (system * 65_536 + body + 32_768) as i128
}

/// Two bodies have one number only where they are the same body.
pub proof fn a_body_has_a_number_of_its_own(system: i64, body: i16, other: i64, another: i16)
    requires
        body_key(system, body) == body_key(other, another),
    ensures
        system == other,
        body == another,
{
}

/// What a message names by number: a system, a body and a station, where it
/// names them.
pub struct Names {
    pub system: Option<i64>,
    pub body: Option<(i64, i16)>,
    pub station: Option<i64>,
}

/// What a journal event names: a jump a system, a carrier jump or a location a
/// system and maybe a body and a station, a docking a system and a station, a
/// settlement all three, and a survey a body.
pub open spec fn named_by_event(event: Sighting) -> Names {
    match event {
        Sighting::FsdJump(system) => Names { system: Some(system), body: None, station: None },
        Sighting::CarrierJump(system, body, market) => Names {
            system: Some(system),
            body: match body {
                Some(body) => Some((system, body)),
                None => None,
            },
            station: market,
        },
        Sighting::Location(system, body, market) => Names {
            system: Some(system),
            body: match body {
                Some(body) => Some((system, body)),
                None => None,
            },
            station: market,
        },
        Sighting::Docked(system, market) => Names {
            system: Some(system),
            body: None,
            station: market,
        },
        Sighting::ApproachSettlement(system, body, market) => Names {
            system: Some(system),
            body: Some((system, body)),
            station: market,
        },
        Sighting::Scan(system, body) => Names {
            system: None,
            body: Some((system, body)),
            station: None,
        },
        Sighting::ScanBaryCentre(system, body) => Names {
            system: None,
            body: Some((system, body)),
            station: None,
        },
        Sighting::FssBodySignals(system, body) => Names {
            system: None,
            body: Some((system, body)),
            station: None,
        },
        Sighting::SAASignalsFound(system, body) => Names {
            system: None,
            body: Some((system, body)),
            station: None,
        },
        Sighting::Other => Names { system: None, body: None, station: None },
    }
}

/// What a message names: what its event does, or the station its market is of.
pub open spec fn named_by(message: Message) -> Names {
    match message {
        Message::Journal(journal) => named_by_event(journal.event),
        Message::Commodity(listing) => Names {
            system: None,
            body: None,
            station: listing.market_id,
        },
        Message::Outfitting(listing) => Names {
            system: None,
            body: None,
            station: listing.market_id,
        },
        Message::Shipyard(listing) => Names {
            system: None,
            body: None,
            station: listing.market_id,
        },
        Message::BlackMarket(listing) => Names {
            system: None,
            body: None,
            station: listing.market_id,
        },
        Message::Unmodeled(_) => Names { system: None, body: None, station: None },
    }
}

/// The number of a body, where there is one.
pub open spec fn key_of(body: Option<(i64, i16)>) -> Option<i128> {
    match body {
        Some((system, body)) => Some(body_key(system, body)),
        None => None,
    }
}

/// A feed with what was named seen in a galaxy.
pub open spec fn tallied(feed: FeedView, names: Names, live: bool) -> FeedView {
    FeedView {
        systems: feed.systems.with_any(names.system, live),
        bodies: feed.bodies.with_any(key_of(names.body), live),
        stations: feed.stations.with_any(names.station, live),
        ..feed
    }
}

/// The window with a row pushed: the oldest is dropped where it is full, and a
/// window of no capacity keeps none.
pub open spec fn pushed(kept: Seq<RowView>, capacity: nat, row: RowView) -> Seq<RowView> {
    if capacity == 0 {
        kept
    } else if kept.len() >= capacity {
        kept.skip(kept.len() - capacity + 1).push(row)
    } else {
        kept.push(row)
    }
}

/// A short name for what a message holds.
pub open spec fn label_of(message: Message) -> Seq<char> {
    match message {
        Message::Journal(journal) => journal.label@,
        Message::Commodity(_) => "Commodity"@,
        Message::Outfitting(_) => "Outfitting"@,
        Message::Shipyard(_) => "Shipyard"@,
        Message::BlackMarket(_) => "BlackMarket"@,
        Message::Unmodeled(_) => "Unmodeled"@,
    }
}

/// The system an envelope shows: the ends of a route where it plots one, or the
/// one system it names.
pub open spec fn system_of(envelope: Envelope) -> Seq<char> {
    match envelope.message {
        Message::Journal(journal) if journal.route@.len() > 0 => journal.route@[0]@ + " -> "@
            + journal.route@.last()@,
        _ => match envelope.star_system {
            Some(system) => system@,
            None => Seq::empty(),
        },
    }
}

/// What a row is searched by, before it is lowered: the schema family, the
/// event, the system, the uploader, and the body and station where they are
/// named, with a space between each.
pub open spec fn searched(envelope: Envelope) -> Seq<char> {
    let named = family_of(envelope.schema_ref@) + " "@ + label_of(envelope.message) + " "@
        + system_of(envelope) + " "@ + envelope.header.uploader_id@;
    let with_body = match envelope.body {
        Some(body) => named + " "@ + body@,
        None => named,
    };
    match envelope.station {
        Some(station) => with_body + " "@ + station@,
        None => with_body,
    }
}

/// A short name for what a message holds, for a line in a list
///
/// The schema family says which kind a message is; this says which event, where
/// there is one to say. A journal message is one of hundreds of events and the
/// event is the useful thing to see at a glance, so it is named. The rest are
/// one shape each and named for the shape.
pub fn event_label(message: &Message) -> (label: String)
    ensures
        label@ == label_of(*message),
{
    match message {
        Message::Journal(journal) => journal.label.clone(),
        Message::Commodity(_) => "Commodity".to_owned(),
        Message::Outfitting(_) => "Outfitting".to_owned(),
        Message::Shipyard(_) => "Shipyard".to_owned(),
        Message::BlackMarket(_) => "BlackMarket".to_owned(),
        Message::Unmodeled(_) => "Unmodeled".to_owned(),
    }
}

/// The system column's text for an envelope
///
/// A `NavRoute` names no single system; it carries a route, so its endpoints
/// are shown as `first -> last`. Everything else shows the one system it names.
pub fn system_text(envelope: &Envelope) -> (text: String)
    ensures
        text@ == system_of(*envelope),
{
    if let Message::Journal(journal) = &envelope.message {
        if journal.route.len() > 0 {
            let mut text = journal.route[0].clone();
            text.append(" -> ");
            text.append(journal.route[journal.route.len() - 1].as_str());
            return text;
        }
    }
    match &envelope.star_system {
        Some(system) => system.clone(),
        None => String::new(),
    }
}

/// The lowercased text a row is filtered by
///
/// The system, station and body it names, the schema family and event it is,
/// and the uploader who sent it: everything a search might reach for, joined
/// and lowered once at push. It is what the columns show, so a filter finds
/// what is on screen, plus the uploader, which the detail pane shows but no
/// column does. Independent of which columns are toggled on.
pub fn search_text(envelope: &Envelope) -> (text: String)
    ensures
        text@ == lowered(searched(*envelope)),
{
    let mut text = schema_family(envelope.schema_ref.as_str()).to_owned();
    text.append(" ");
    let label = event_label(&envelope.message);
    text.append(label.as_str());
    text.append(" ");
    let system = system_text(envelope);
    text.append(system.as_str());
    text.append(" ");
    text.append(envelope.header.uploader_id.as_str());
    if let Some(body) = &envelope.body {
        text.append(" ");
        text.append(body.as_str());
    }
    if let Some(station) = &envelope.station {
        text.append(" ");
        text.append(station.as_str());
    }
    lower(text.as_str())
}

/// A feed with an envelope taken.
pub open spec fn took(
    before: FeedView,
    after: FeedView,
    envelope: Envelope,
    gap: Option<u128>,
) -> bool {
    let row = RowView { envelope, search: lowered(searched(envelope)), gap };
    let named = tallied(before, named_by(envelope.message), envelope.live);
    &&& after.capacity == before.capacity
    &&& after.received == before.received + 1
    &&& after.errors == before.errors
    &&& after.kept == pushed(before.kept, before.capacity, row)
    &&& after.systems == named.systems
    &&& after.bodies == named.bodies
    &&& after.stations == named.stations
    &&& counted_once(before.per_schema, after.per_schema, family_of(envelope.schema_ref@))
    &&& counted_once(before.per_software, after.per_software, envelope.header.software_name@)
}

/// Whether this is how much time a feed's window spans.
pub open spec fn spans(feed: FeedView, span: Option<Span>) -> bool {
    match span {
        Some(span) => feed.kept.len() > 0 && span.is_span() && span.total() == nanos_between(
            feed.kept.last().envelope.header.gateway_timestamp@,
            feed.kept[0].envelope.header.gateway_timestamp@,
        ),
        None => feed.kept.len() == 0,
    }
}

impl Feed {
    /// A feed keeping the last `capacity` envelopes
    ///
    /// A capacity of zero keeps no window but still counts, which is a feed
    /// that reports on the socket without holding any of it.
    pub fn new(capacity: usize) -> (feed: Self)
        ensures
            feed@.is_feed(),
            feed@ == FeedView::empty(capacity as nat),
    {
        let feed = Feed {
            capacity,
            kept: VecDeque::new(),
            received: 0,
            errors: 0,
            per_schema: Counts::new(),
            per_software: Counts::new(),
            systems: Tally::new(),
            bodies: Tally::new(),
            stations: Tally::new(),
        };
        assert(feed@.kept == Seq::<RowView>::empty());
        feed
    }

    /// Take an envelope, dropping the oldest if the window is full.
    pub fn push(&mut self, envelope: Envelope)
        requires
            old(self)@.is_feed(),
            old(self)@.received < u64::MAX,
        ensures
            final(self)@.is_feed(),
            took(old(self)@, final(self)@, envelope, None),
    {
        self.push_inner(envelope, None);
    }

    /// Take an envelope that arrived after a connection gap of `gap`
    /// nanoseconds, marking the row where the feed resumed after a stall.
    pub fn push_after_gap(&mut self, envelope: Envelope, gap: u128)
        requires
            old(self)@.is_feed(),
            old(self)@.received < u64::MAX,
        ensures
            final(self)@.is_feed(),
            took(old(self)@, final(self)@, envelope, Some(gap)),
    {
        self.push_inner(envelope, Some(gap));
    }

    fn push_inner(&mut self, envelope: Envelope, gap: Option<u128>)
        requires
            old(self)@.is_feed(),
            old(self)@.received < u64::MAX,
        ensures
            final(self)@.is_feed(),
            took(old(self)@, final(self)@, envelope, gap),
    {
        let ghost before = self@;
        self.received = self.received + 1;
        self.per_schema.add_one(schema_family(envelope.schema_ref.as_str()));
        self.per_software.add_one(envelope.header.software_name.as_str());
        self.tally_objects(&envelope.message, envelope.live);
        if self.capacity == 0 {
            return;
        }
        let ghost whole = rows_of(self.kept@);
        if self.kept.len() >= self.capacity {
            self.kept.pop_front();
        }
        assert(rows_of(self.kept@) == if whole.len() >= self.capacity {
            whole.skip(whole.len() - self.capacity + 1)
        } else {
            whole
        });
        let search = search_text(&envelope);
        let ghost shorter = rows_of(self.kept@);
        let ghost row = RowView { envelope, search: search@, gap };
        self.kept.push_back(Kept { envelope, search, gap });
        assert(rows_of(self.kept@) == shorter.push(row));
    }

    /// Record the distinct systems, bodies and stations a message names
    ///
    /// Uniques by in-game id: a system by its address, a station by its market
    /// id, a body by its id within its system. All-time, like the other totals
    /// -- a system seen an hour ago still counts.
    fn tally_objects(&mut self, message: &Message, live: bool)
        ensures
            final(self)@ == tallied(old(self)@, named_by(*message), live),
    {
        let station: Option<i64> = match message {
            Message::Journal(journal) => {
                self.tally_event(journal.event, live);
                return;
            },
            Message::Commodity(listing) => listing.market_id,
            Message::Outfitting(listing) => listing.market_id,
            Message::Shipyard(listing) => listing.market_id,
            Message::BlackMarket(listing) => listing.market_id,
            Message::Unmodeled(_) => None,
        };
        if let Some(market) = station {
            self.stations.insert(market, live);
        }
    }

    /// The objects a single journal event names.
    fn tally_event(&mut self, event: Sighting, live: bool)
        ensures
            final(self)@ == tallied(old(self)@, named_by_event(event), live),
    {
        match event {
            Sighting::FsdJump(system) => self.tally_place(system, None, None, live),
            Sighting::CarrierJump(system, body, market) => self.tally_place(
                system,
                body,
                market,
                live,
            ),
            Sighting::Location(system, body, market) => self.tally_place(
                system,
                body,
                market,
                live,
            ),
            Sighting::Docked(system, market) => self.tally_place(system, None, market, live),
            Sighting::ApproachSettlement(system, body, market) => self.tally_place(
                system,
                Some(body),
                market,
                live,
            ),
            Sighting::Scan(system, body) => self.tally_body(system, body, live),
            Sighting::ScanBaryCentre(system, body) => self.tally_body(system, body, live),
            Sighting::FssBodySignals(system, body) => self.tally_body(system, body, live),
            Sighting::SAASignalsFound(system, body) => self.tally_body(system, body, live),
            Sighting::Other => {},
        }
    }

    /// Record a body by its id within its system.
    fn tally_body(&mut self, system: i64, body: i16, live: bool)
        ensures
            final(self)@ == (FeedView {
                bodies: old(self)@.bodies.with(body_key(system, body), live),
                ..old(self)@
            }),
    {
        let key: i128 = system as i128 * 65_536 + body as i128 + 32_768;
        self.bodies.insert(key, live);
    }

    /// Record a place by id: its system, and its body and station where named
    ///
    /// The shape a handful of events share -- a jump names a system, a carrier
    /// jump or a location a system and maybe a body and a station, a docking a
    /// system and a station. `None` stands where an event carries none of one.
    fn tally_place(&mut self, system: i64, body: Option<i16>, market: Option<i64>, live: bool)
        ensures
            final(self)@ == tallied(
                old(self)@,
                Names {
                    system: Some(system),
                    body: match body {
                        Some(body) => Some((system, body)),
                        None => None,
                    },
                    station: market,
                },
                live,
            ),
    {
        self.systems.insert(system, live);
        if let Some(body) = body {
            self.tally_body(system, body, live);
        }
        if let Some(market) = market {
            self.stations.insert(market, live);
        }
    }

    /// How many distinct systems the galaxy has named.
    pub fn systems(&self, galaxy: Galaxy) -> (count: u128)
        ensures
            count == self@.systems.count(galaxy),
    {
        self.systems.count(galaxy)
    }

    /// How many distinct bodies the galaxy has named.
    pub fn bodies(&self, galaxy: Galaxy) -> (count: u128)
        ensures
            count == self@.bodies.count(galaxy),
    {
        self.bodies.count(galaxy)
    }

    /// How many distinct stations the galaxy has named.
    pub fn stations(&self, galaxy: Galaxy) -> (count: u128)
        ensures
            count == self@.stations.count(galaxy),
    {
        self.stations.count(galaxy)
    }

    /// Count a message that could not be read
    ///
    /// An error is not an envelope and is not kept, but it is part of what the
    /// socket has done and is worth a running total of its own.
    pub fn note_error(&mut self)
        requires
            old(self)@.errors < u64::MAX,
        ensures
            final(self)@ == (FeedView { errors: old(self)@.errors + 1, ..old(self)@ }),
    {
        self.errors = self.errors + 1;
    }

    /// The retained window, oldest first, each with the text it filters by
    ///
    /// The search text is what [`push`](Feed::push) built once from the row's
    /// fields; a filter matches against it rather than re-reading the envelope.
    pub fn rows(&self) -> (rows: Vec<Row<'_>>)
        ensures
            rows@.len() == self@.kept.len(),
            forall|i: int| 0 <= i < rows@.len() ==> (#[trigger] rows@[i])@ == self@.kept[i],
    {
        let mut rows: Vec<Row<'_>> = Vec::new();
        let mut i: usize = 0;
        while i < self.kept.len()
            invariant
                i <= self.kept@.len(),
                rows@.len() == i,
                forall|k: int| 0 <= k < i ==> (#[trigger] rows@[k])@ == self@.kept[k],
            decreases self.kept@.len() - i,
        {
            let kept = &self.kept[i];
            rows.push(
                Row { envelope: &kept.envelope, search: kept.search.as_str(), gap: kept.gap },
            );
            i += 1;
        }
        rows
    }

    /// How many envelopes have ever been pushed, kept or dropped.
    pub fn received(&self) -> (received: u64)
        ensures
            received == self@.received,
    {
        self.received
    }

    /// How many unreadable messages have been counted.
    pub fn errors(&self) -> (errors: u64)
        ensures
            errors == self@.errors,
    {
        self.errors
    }

    /// Reset the unreadable-message count to zero.
    pub fn clear_errors(&mut self)
        ensures
            final(self)@ == (FeedView { errors: 0, ..old(self)@ }),
    {
        self.errors = 0;
    }

    /// How many envelopes the window currently holds.
    pub fn retained(&self) -> (retained: usize)
        ensures
            retained == self@.kept.len(),
    {
        self.kept.len()
    }

    /// How much time the retained window spans
    ///
    /// The gap between the oldest kept envelope's gateway timestamp and the
    /// newest. [`None`] when the window is empty; zero when it holds one.
    ///
    /// Spanned by arrival order, not by the timestamps themselves: across a
    /// reconnection the gateway's clock need not carry on exactly where it left
    /// off, so the newest can read a shade before the oldest and the gap come
    /// out slightly negative.
    pub fn window_duration(&self) -> (span: Option<Span>)
        ensures
            spans(self@, span),
    {
        if self.kept.len() == 0 {
            return None;
        }
        let oldest = &self.kept[0].envelope;
        let newest = &self.kept[self.kept.len() - 1].envelope;
        Some(newest.header.gateway_timestamp.since(oldest.header.gateway_timestamp))
    }

    /// Everything pushed, tallied by schema family, in name order
    ///
    /// A volume total, not a distinct count, and all-galaxy where
    /// [`systems`](Feed::systems) and its kind honour a [`Galaxy`]: these
    /// tallies sum to [`received`](Feed::received), itself all-galaxy, so this
    /// decomposes that number rather than mirroring the filtered counts.
    pub fn per_schema(&self) -> (counts: &Counts)
        ensures
            counts@ == self@.per_schema,
    {
        &self.per_schema
    }

    /// Everything pushed, tallied by the software that sent it, in name order.
    pub fn per_software(&self) -> (counts: &Counts)
        ensures
            counts@ == self@.per_software,
    {
        &self.per_software
    }
}

impl Default for Feed {
    fn default() -> (feed: Self)
        ensures
            feed@.is_feed(),
            feed@ == FeedView::empty(DEFAULT_CAPACITY as nat),
    {
        Feed::new(DEFAULT_CAPACITY)
    }
}

/// The window is bounded by its capacity whatever is pushed, the newest row is
/// the one just pushed, and the totals keep climbing.
pub proof fn the_window_is_bounded_but_the_totals_are_not(
    before: FeedView,
    after: FeedView,
    envelope: Envelope,
    gap: Option<u128>,
)
    requires
        before.is_feed(),
        took(before, after, envelope, gap),
    ensures
        after.kept.len() <= after.capacity,
        after.capacity > 0 ==> after.kept.last().envelope == envelope && after.kept.last().gap
            == gap,
        after.received == before.received + 1,
        before.capacity > 0 ==> after.kept.len() == if before.kept.len() < before.capacity {
            (before.kept.len() + 1) as nat
        } else {
            before.capacity
        },
{
}

/// What is kept after a push was kept before it or was pushed: a row's place
/// counted from the newest only grows.
pub proof fn a_push_keeps_the_rows_in_order(
    before: FeedView,
    after: FeedView,
    envelope: Envelope,
    gap: Option<u128>,
    i: int,
)
    requires
        before.is_feed(),
        took(before, after, envelope, gap),
        0 <= i < after.kept.len() - 1,
        before.capacity > 0,
    ensures
        after.kept[i] == before.kept[before.kept.len() - (after.kept.len() - 1) + i],
{
}

/// The counts by schema come to everything received, and so do the counts by
/// software.
pub proof fn the_counts_decompose_what_was_received(feed: FeedView)
    requires
        feed.is_feed(),
    ensures
        sum(feed.per_schema) == feed.received,
        sum(feed.per_software) == feed.received,
{
}

/// Whether one tally is another with a key seen in a galaxy: that key is in it
/// there, and nothing else has come or gone.
pub open spec fn gains<K>(before: TallyView<K>, after: TallyView<K>, key: K, live: bool) -> bool {
    &&& forall|each: K| #[trigger]
        after.live.contains(each) <==> before.live.contains(each) || (live && each == key)
    &&& forall|each: K| #[trigger]
        after.test.contains(each) <==> before.test.contains(each) || (!live && each == key)
}

/// A jump counts the system it is to; a docking that and its station; a
/// carrier's jump and a location the system, and the body and the station where
/// they say them; and coming up on a settlement the system and the body, and
/// the station where it says it. Each is counted in the galaxy the message is
/// of, and nothing else is.
pub proof fn an_arrival_counts_where_it_is(
    before: FeedView,
    after: FeedView,
    envelope: Envelope,
    gap: Option<u128>,
    system: i64,
    body: i16,
    market: i64,
)
    requires
        took(before, after, envelope, gap),
        envelope.message is Journal,
    ensures
        ({
            let event = envelope.message->Journal_0.event;
            let live = envelope.live;
            &&& event == Sighting::FsdJump(system) ==> gains(
                before.systems,
                after.systems,
                system,
                live,
            ) && after.bodies == before.bodies && after.stations == before.stations
            &&& event == Sighting::Docked(system, Some(market)) ==> gains(
                before.systems,
                after.systems,
                system,
                live,
            ) && after.bodies == before.bodies && gains(
                before.stations,
                after.stations,
                market,
                live,
            )
            &&& event == Sighting::Docked(system, None) ==> gains(
                before.systems,
                after.systems,
                system,
                live,
            ) && after.bodies == before.bodies && after.stations == before.stations
            &&& event matches Sighting::CarrierJump(place, at, docked) ==> gains(
                before.systems,
                after.systems,
                place,
                live,
            ) && (at == Some(body) ==> gains(
                before.bodies,
                after.bodies,
                body_key(place, body),
                live,
            )) && (at is None ==> after.bodies == before.bodies) && (docked == Some(market)
                ==> gains(before.stations, after.stations, market, live)) && (docked is None
                ==> after.stations == before.stations)
            &&& event matches Sighting::Location(place, at, docked) ==> gains(
                before.systems,
                after.systems,
                place,
                live,
            ) && (at == Some(body) ==> gains(
                before.bodies,
                after.bodies,
                body_key(place, body),
                live,
            )) && (at is None ==> after.bodies == before.bodies) && (docked == Some(market)
                ==> gains(before.stations, after.stations, market, live)) && (docked is None
                ==> after.stations == before.stations)
            &&& event matches Sighting::ApproachSettlement(place, at, docked) ==> gains(
                before.systems,
                after.systems,
                place,
                live,
            ) && gains(before.bodies, after.bodies, body_key(place, at), live) && (docked == Some(
                market,
            ) ==> gains(before.stations, after.stations, market, live)) && (docked is None
                ==> after.stations == before.stations)
        }),
{
}

/// A scan of a body or of a barycentre, and a find of signals on a body from
/// orbit or from its surface, counts that body in the galaxy the message is of,
/// and no system or station; an event that names nothing counts nothing.
pub proof fn a_survey_counts_its_body(
    before: FeedView,
    after: FeedView,
    envelope: Envelope,
    gap: Option<u128>,
    system: i64,
    body: i16,
)
    requires
        took(before, after, envelope, gap),
        envelope.message is Journal,
    ensures
        ({
            let event = envelope.message->Journal_0.event;
            &&& event == Sighting::Scan(system, body) || event == Sighting::ScanBaryCentre(
                system,
                body,
            ) || event == Sighting::FssBodySignals(system, body) || event
                == Sighting::SAASignalsFound(system, body) ==> gains(
                before.bodies,
                after.bodies,
                body_key(system, body),
                envelope.live,
            ) && after.systems == before.systems && after.stations == before.stations
            &&& event == Sighting::Other ==> after.systems == before.systems && after.bodies
                == before.bodies && after.stations == before.stations
        }),
{
}

/// A market, a shipyard, an outfitting bay and a black market sale count the
/// station they are of, where they say it, and nothing else; a payload kept
/// unread counts nothing.
pub proof fn a_listing_counts_its_station(
    before: FeedView,
    after: FeedView,
    envelope: Envelope,
    gap: Option<u128>,
    market: i64,
)
    requires
        took(before, after, envelope, gap),
        !(envelope.message is Journal),
    ensures
        after.systems == before.systems && after.bodies == before.bodies,
        ({
            let of = match envelope.message {
                Message::Commodity(listing) => listing.market_id,
                Message::Outfitting(listing) => listing.market_id,
                Message::Shipyard(listing) => listing.market_id,
                Message::BlackMarket(listing) => listing.market_id,
                _ => None,
            };
            &&& of == Some(market) ==> gains(
                before.stations,
                after.stations,
                market,
                envelope.live,
            )
            &&& of is None ==> after.stations == before.stations
        }),
{
}

/// A body's number holds its system and its id, one to one.
pub proof fn a_body_is_found_by_its_number(system: i64, body: i16)
    ensures
        body_key(system, body) as int / 65_536 == system,
        body_key(system, body) as int % 65_536 == body + 32_768,
{
}

/// Every part of what a row shows stands in the text it is searched by,
/// whatever else the row shows: its schema family, its event, its system, its
/// body and its station where it names them; and so does its uploader, who is
/// shown beside the row.
pub proof fn a_row_is_searched_by_all_it_shows(envelope: Envelope)
    ensures
        holds(searched(envelope), family_of(envelope.schema_ref@)),
        holds(searched(envelope), label_of(envelope.message)),
        holds(searched(envelope), system_of(envelope)),
        holds(searched(envelope), envelope.header.uploader_id@),
        envelope.body is Some ==> holds(searched(envelope), envelope.body->0@),
        envelope.station is Some ==> holds(searched(envelope), envelope.station->0@),
{
    let family = family_of(envelope.schema_ref@);
    let label = label_of(envelope.message);
    let system = system_of(envelope);
    let uploader = envelope.header.uploader_id@;
    let one = family + " "@ + label;
    let two = one + " "@ + system;
    let three = two + " "@ + uploader;
    assert(stands_at(family, family, 0)) by {
        assert(family.subrange(0, family.len() as int) =~= family);
    }
    lemma_joined(family, label, family);
    lemma_joined(one, system, family);
    lemma_joined(one, system, label);
    lemma_joined(two, uploader, family);
    lemma_joined(two, uploader, label);
    lemma_joined(two, uploader, system);
    lemma_kept_searched(envelope, three, family);
    lemma_kept_searched(envelope, three, label);
    lemma_kept_searched(envelope, three, system);
    lemma_kept_searched(envelope, three, uploader);
}

/// A text joined to another after a space holds that one, and all it held.
proof fn lemma_joined(text: Seq<char>, more: Seq<char>, needle: Seq<char>)
    ensures
        holds(text + " "@ + more, more),
        holds(text, needle) ==> holds(text + " "@ + more, needle),
{
    let none = Seq::<char>::empty();
    let whole = text + " "@ + more;
    assert(whole =~= (text + " "@) + more + none);
    a_part_stands_in_the_whole(text + " "@, more, none);
    if holds(text, needle) {
        assert(whole =~= none + text + (" "@ + more));
        what_a_part_holds_the_whole_holds(none, text, " "@ + more, needle);
    }
}

/// The body and the station are searched beside what every row is, and take
/// nothing from it.
proof fn lemma_kept_searched(envelope: Envelope, named: Seq<char>, needle: Seq<char>)
    requires
        named == family_of(envelope.schema_ref@) + " "@ + label_of(envelope.message) + " "@
            + system_of(envelope) + " "@ + envelope.header.uploader_id@,
        holds(named, needle),
    ensures
        holds(searched(envelope), needle),
        envelope.body is Some ==> holds(searched(envelope), envelope.body->0@),
        envelope.station is Some ==> holds(searched(envelope), envelope.station->0@),
{
    let with_body = match envelope.body {
        Some(body) => named + " "@ + body@,
        None => named,
    };
    if let Some(body) = envelope.body {
        lemma_joined(named, body@, needle);
    }
    if let Some(station) = envelope.station {
        lemma_joined(with_body, station@, needle);
        if let Some(body) = envelope.body {
            lemma_joined(with_body, station@, body@);
        }
    }
}

/// A row just pushed is searched by the text of its envelope, lowered, and is
/// the envelope as it came, with the gap it followed; the rows before it are
/// those there were, but for the oldest where the window was full.
pub proof fn a_row_is_kept_as_it_came(
    before: FeedView,
    after: FeedView,
    envelope: Envelope,
    gap: Option<u128>,
    i: int,
)
    requires
        before.is_feed(),
        took(before, after, envelope, gap),
    ensures
        before.capacity > 0 ==> {
            let dropped = if before.kept.len() == before.capacity {
                1int
            } else {
                0
            };
            &&& after.kept.len() == before.kept.len() + 1 - dropped
            &&& after.kept.last().envelope == envelope
            &&& after.kept.last().gap == gap
            &&& after.kept.last().search == lowered(searched(envelope))
            &&& 0 <= i < after.kept.len() - 1 ==> after.kept[i] == before.kept[i + dropped]
        },
        before.capacity == 0 ==> after.kept.len() == 0,
        after.received == before.received + 1,
        after.errors == before.errors && after.capacity == before.capacity,
{
}

/// A route shows where it starts and where it ends, and any other message the
/// one system it names, or nothing where it names none.
pub proof fn a_row_shows_its_system(envelope: Envelope)
    ensures
        envelope.message matches Message::Journal(journal) ==> journal.route@.len() > 0
            ==> system_of(envelope) == texts(journal.route@)[0] + " -> "@ + texts(
            journal.route@,
        )[journal.route@.len() - 1],
        (envelope.message is Journal ==> envelope.message->Journal_0.route@.len() == 0) ==> {
            &&& envelope.star_system is Some ==> system_of(envelope) == envelope.star_system->0@
            &&& envelope.star_system is None ==> system_of(envelope).len() == 0
        },
{
}

/// A journal message is labelled by its event, and any other by its kind.
pub proof fn a_row_is_labelled_by_what_it_is(message: Message)
    ensures
        message is Journal ==> label_of(message) == message->Journal_0.label@,
        message is Commodity ==> label_of(message) == "Commodity"@,
        message is Outfitting ==> label_of(message) == "Outfitting"@,
        message is Shipyard ==> label_of(message) == "Shipyard"@,
        message is BlackMarket ==> label_of(message) == "BlackMarket"@,
        message is Unmodeled ==> label_of(message) == "Unmodeled"@,
{
}

/// A window spans from its oldest row to its newest, as the gateway timed them:
/// a window of one row spans nothing, and an empty one has no span.
pub proof fn a_window_spans_from_its_oldest_to_its_newest(feed: FeedView, span: Option<Span>)
    requires
        spans(feed, span),
    ensures
        span is Some <==> feed.kept.len() > 0,
        feed.kept.len() == 1 ==> span->0.total() == 0,
        feed.kept.len() > 0 ==> {
            let newest = feed.kept[feed.kept.len() - 1].envelope.header.gateway_timestamp@;
            let oldest = feed.kept[0].envelope.header.gateway_timestamp@;
            &&& newest.1 < 1_000_000_000 && oldest.1 < 1_000_000_000 ==> span->0.total() == (
            newest.0 - oldest.0) * 1_000_000_000 + newest.1 - oldest.1
        },
{
    if feed.kept.len() > 0 {
        let newest = feed.kept[feed.kept.len() - 1].envelope.header.gateway_timestamp@;
        let oldest = feed.kept[0].envelope.header.gateway_timestamp@;
        if newest.1 < 1_000_000_000 && oldest.1 < 1_000_000_000 {
            spans_are_differences(newest, oldest);
        }
    }
}

/// A row is searched by its schema family, its event, its system and its
/// uploader, then its body and its station where it names them, with a space
/// between each, and by nothing else.
pub proof fn a_row_is_searched_by_nothing_else(envelope: Envelope)
    ensures
        ({
            let named = seq![
                family_of(envelope.schema_ref@),
                label_of(envelope.message),
                system_of(envelope),
                envelope.header.uploader_id@,
            ];
            let body = envelope.body;
            let station = envelope.station;
            let text = searched(envelope);
            &&& body is None && station is None ==> text == spaced(named)
            &&& body is Some && station is None ==> text == spaced(named.push(body->0@))
            &&& body is None && station is Some ==> text == spaced(named.push(station->0@))
            &&& body is Some && station is Some ==> text == spaced(
                named.push(body->0@).push(station->0@),
            )
        }),
{
    let family = family_of(envelope.schema_ref@);
    let label = label_of(envelope.message);
    let system = system_of(envelope);
    let uploader = envelope.header.uploader_id@;
    let named = seq![family, label, system, uploader];
    assert(named =~= seq![family].push(label).push(system).push(uploader));
    a_text_is_strung_last(seq![family], label);
    a_text_is_strung_last(seq![family].push(label), system);
    a_text_is_strung_last(seq![family].push(label).push(system), uploader);
    if let Some(body) = envelope.body {
        a_text_is_strung_last(named, body@);
        if let Some(station) = envelope.station {
            a_text_is_strung_last(named.push(body@), station@);
        }
    } else if let Some(station) = envelope.station {
        a_text_is_strung_last(named, station@);
    }
}

/// A feed that is told no capacity keeps five thousand rows, and one that has
/// just been made has counted nothing and named nothing.
pub proof fn a_feed_starts_from_nothing(capacity: nat, galaxy: Galaxy)
    ensures
        DEFAULT_CAPACITY == 5000,
        ({
            let feed = FeedView::empty(capacity);
            &&& feed.capacity == capacity && feed.kept.len() == 0
            &&& feed.received == 0 && feed.errors == 0
            &&& feed.per_schema.len() == 0 && feed.per_software.len() == 0
            &&& feed.systems.count(galaxy) == 0 && feed.bodies.count(galaxy) == 0
            &&& feed.stations.count(galaxy) == 0
        }),
{
}

} // verus!
