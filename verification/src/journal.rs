//! Payloads read as the types of [`elite_journal`].
//!
//! Each payload is carried whole, and beside it stands what the rest of this
//! crate looks at: when the game wrote it, and what it names by number.

use crate::error::Failure;
use crate::json::{json_of, Json};
use crate::moment::{names_moment, Moment};
use crate::names::{name_of, variant_name};
use crate::text::texts;
use elite_journal::entry::market::{BlackMarket, Outfitting, Shipyard};
use elite_journal::entry::{Entry, Event, Market};
use vstd::prelude::*;

verus! {

/// An [`elite_journal::Entry`], carried through to whoever wants the whole of
/// it.
#[verifier::external_type_specification]
#[verifier::external_body]
#[verifier::reject_recursive_types(E)]
pub struct ExEntry<E>(elite_journal::entry::Entry<E>);

/// An [`elite_journal`] event, carried inside its entry.
#[verifier::external_type_specification]
#[verifier::external_body]
pub struct ExEvent(elite_journal::entry::Event);

/// An [`elite_journal`] market, carried inside its entry.
#[verifier::external_type_specification]
#[verifier::external_body]
pub struct ExMarket(elite_journal::entry::Market);

/// An [`elite_journal`] outfitting bay, carried inside its entry.
#[verifier::external_type_specification]
#[verifier::external_body]
pub struct ExOutfitting(elite_journal::entry::market::Outfitting);

/// An [`elite_journal`] shipyard, carried inside its entry.
#[verifier::external_type_specification]
#[verifier::external_body]
pub struct ExShipyard(elite_journal::entry::market::Shipyard);

/// An [`elite_journal`] black market sale, carried inside its entry.
#[verifier::external_type_specification]
#[verifier::external_body]
pub struct ExBlackMarket(elite_journal::entry::market::BlackMarket);

/// What a journal event names by number, for the events that name anything
///
/// A system is numbered by its address, a body by its id within its system, a
/// station by its market.
#[derive(Clone, Copy, Debug, PartialEq, Eq, Structural)]
pub enum Sighting {
    /// A jump to a system.
    FsdJump(i64),
    /// A carrier's jump to a system, the body it is at, and its market.
    CarrierJump(i64, Option<i16>, Option<i64>),
    /// Being in a system, the body it is at, and the market docked at.
    Location(i64, Option<i16>, Option<i64>),
    /// Docking in a system, and the market docked at.
    Docked(i64, Option<i64>),
    /// Coming up on a settlement: its system, its body, and its market.
    ApproachSettlement(i64, i16, Option<i64>),
    /// A scan of a body.
    Scan(i64, i16),
    /// A scan of a barycentre.
    ScanBaryCentre(i64, i16),
    /// Signals found on a body from orbit.
    FssBodySignals(i64, i16),
    /// Signals found on a body's surface.
    SAASignalsFound(i64, i16),
    /// An event that names nothing by number.
    Other,
}

/// Why a payload would not read, as text and numbers
pub struct FailureView {
    pub said: Seq<char>,
    pub line: usize,
    pub column: usize,
}

impl View for Failure {
    type V = FailureView;

    open spec fn view(&self) -> FailureView {
        FailureView { said: self.said@, line: self.line, column: self.column }
    }
}

/// A journal entry as [`elite_journal`] reads one: the entry itself, when it was
/// written, and the stops of the route it plots.
pub struct JournalView {
    pub entry: Entry<Event>,
    pub timestamp: (int, int),
    pub route: Seq<Seq<char>>,
}

/// The journal entry a payload is, or why it is none.
pub uninterp spec fn journal_of(json: Json) -> Result<JournalView, FailureView>;

/// Reads a payload as an [`elite_journal::Entry`] of an
/// [`elite_journal::entry::Event`] with [`serde_json::from_value`]
///
/// The contract names the result, which depends on the payload alone: the
/// entry; when it was written, a moment `chrono` can name; the systems of the
/// route a `NavRoute` plots, and none for any other event; and where it would
/// not read, why.
#[verifier::external_body]
fn parse_journal(message: &serde_json::Value) -> (read: Result<
    (Entry<Event>, (i64, u32), Vec<String>),
    Failure,
>)
    ensures
        match read {
            Ok((entry, at, route)) => journal_of(json_of(*message)) == Ok::<_, FailureView>(
                JournalView {
                    entry,
                    timestamp: (at.0 as int, at.1 as int),
                    route: texts(route@),
                },
            ) && names_moment(at.0 as int, at.1 as int),
            Err(failure) => journal_of(json_of(*message)) == Err::<JournalView, _>(failure@),
        },
{
    let read = serde_json::from_value::<Entry<Event>>(message.clone());
    let entry = read.map_err(
        |err| Failure { said: err.to_string(), line: err.line(), column: err.column() },
    )?;
    let at = (entry.timestamp.timestamp(), entry.timestamp.timestamp_subsec_nanos());
    let route = match &entry.event {
        Event::NavRoute(route) => route.destinations.iter().map(
            |stop| stop.star_system.clone(),
        ).collect(),
        _ => Vec::new(),
    };
    Ok((entry, at, route))
}

/// An entry's event, as `Debug` renders it.
pub uninterp spec fn event_rendered(entry: Entry<Event>) -> Seq<char>;

/// Renders an [`elite_journal`] event with its derived `Debug`
///
/// The contract names the text, which depends on the entry alone.
#[verifier::external_body]
fn render_event(entry: &Entry<Event>) -> (text: String)
    ensures
        text@ == event_rendered(*entry),
{
    format!("{:?}", entry.event)
}

/// What an entry names by number, where it is an arrival somewhere.
pub uninterp spec fn arrival_of(entry: Entry<Event>) -> Sighting;

/// Reads what an [`elite_journal`] event names by number, for the events that
/// are an arrival somewhere
///
/// The contract names the result, which depends on the entry alone: the numbers
/// a jump or a location carries, and [`Sighting::Other`] for anything else.
#[verifier::external_body]
fn arrival(entry: &Entry<Event>) -> (event: Sighting)
    ensures
        event == arrival_of(*entry),
{
    match &entry.event {
        Event::FsdJump(e) => Sighting::FsdJump(e.system.address),
        Event::CarrierJump(e) => Sighting::CarrierJump(
            e.system.address,
            e.body.as_ref().map(|b| b.id),
            e.station.as_ref().and_then(|s| s.market_id),
        ),
        Event::Location(e) => Sighting::Location(
            e.system.address,
            e.body.as_ref().map(|b| b.id),
            e.station.as_ref().and_then(|s| s.market_id),
        ),
        _ => Sighting::Other,
    }
}

/// What an entry names by number, where it is a visit or a survey.
pub uninterp spec fn visit_of(entry: Entry<Event>) -> Sighting;

/// Reads what an [`elite_journal`] event names by number, for the events that
/// visit a station or survey a body
///
/// The contract names the result, which depends on the entry alone: the numbers
/// a docking, an approach, a scan or a find of signals carries, and
/// [`Sighting::Other`] for anything else.
#[verifier::external_body]
fn visit(entry: &Entry<Event>) -> (event: Sighting)
    ensures
        event == visit_of(*entry),
{
    match &entry.event {
        Event::Docked(e) => Sighting::Docked(e.system_address, e.station.market_id),
        Event::ApproachSettlement(e) => Sighting::ApproachSettlement(
            e.system_address,
            e.body_id,
            e.market_id,
        ),
        Event::Scan(e) => Sighting::Scan(e.system_address, e.target.body_id()),
        Event::ScanBaryCentre(e) => Sighting::ScanBaryCentre(e.system_address, e.body_id),
        Event::FssBodySignals(e) => Sighting::FssBodySignals(e.system_address, e.body_id),
        Event::SAASignalsFound(e) => Sighting::SAASignalsFound(e.system_address, e.body_id),
        _ => Sighting::Other,
    }
}

/// A journal entry, and what this crate looks at in it
#[derive(Debug)]
pub struct Journal {
    /// The entry itself.
    pub entry: Entry<Event>,
    /// When the game wrote it.
    pub timestamp: Moment,
    /// Which event it is, by name.
    pub label: String,
    /// What it names by number.
    pub event: Sighting,
    /// The systems of the route it plots, in order.
    pub route: Vec<String>,
}

/// What an entry names by number: what it names as an arrival, or as a visit or
/// a survey where it is none.
pub open spec fn event_of(entry: Entry<Event>) -> Sighting {
    if arrival_of(entry) != Sighting::Other {
        arrival_of(entry)
    } else {
        visit_of(entry)
    }
}

impl Journal {
    /// Whether this is the entry a payload reads as.
    pub open spec fn reads(self, json: Json) -> bool {
        &&& journal_of(json) is Ok
        &&& self.entry == journal_of(json)->Ok_0.entry
        &&& self.timestamp@ == journal_of(json)->Ok_0.timestamp
        &&& self.label@ == name_of(event_rendered(self.entry))
        &&& self.event == event_of(self.entry)
        &&& texts(self.route@) == journal_of(json)->Ok_0.route
    }

    /// Read a payload as a journal entry.
    pub fn read(message: &serde_json::Value) -> (read: Result<Journal, Failure>)
        ensures
            match read {
                Ok(journal) => journal.reads(json_of(*message)),
                Err(failure) => journal_of(json_of(*message)) == Err::<JournalView, _>(failure@),
            },
    {
        let (entry, at, route) = match parse_journal(message) {
            Ok(read) => read,
            Err(failure) => {
                return Err(failure);
            },
        };
        let event = match arrival(&entry) {
            Sighting::Other => visit(&entry),
            event => event,
        };
        let timestamp = moment(at);
        let rendered = render_event(&entry);
        let label = variant_name(rendered.as_str());
        Ok(Journal { entry, timestamp, label, event, route })
    }
}

/// The moment a pair of counts names.
fn moment(at: (i64, u32)) -> (moment: Moment)
    requires
        names_moment(at.0 as int, at.1 as int),
    ensures
        moment@ == (at.0 as int, at.1 as int),
{
    Moment::new(at.0, at.1).unwrap()
}

/// A market schema's entry, and what this crate looks at in it
#[derive(Debug)]
#[verifier::reject_recursive_types(E)]
pub struct Listing<E> {
    /// The entry itself.
    pub entry: Entry<E>,
    /// When the game wrote it.
    pub timestamp: Moment,
    /// The station's market, where the entry names one.
    pub market_id: Option<i64>,
}

/// A market schema's entry as [`elite_journal`] reads one: the entry itself,
/// when it was written, and the market it is of.
#[verifier::reject_recursive_types(E)]
pub struct ListingView<E> {
    pub entry: Entry<E>,
    pub timestamp: (int, int),
    pub market_id: Option<i64>,
}

impl<E> View for Listing<E> {
    type V = ListingView<E>;

    open spec fn view(&self) -> ListingView<E> {
        ListingView { entry: self.entry, timestamp: self.timestamp@, market_id: self.market_id }
    }
}

/// Whether a reading is the one named: the entry's time and market, or why it
/// would not read.
pub open spec fn read_as<E>(
    read: Result<(Entry<E>, (i64, u32), Option<i64>), Failure>,
    named: Result<ListingView<E>, FailureView>,
) -> bool {
    match read {
        Ok((entry, at, market_id)) => named == Ok::<_, FailureView>(
            ListingView { entry, timestamp: (at.0 as int, at.1 as int), market_id },
        ) && names_moment(at.0 as int, at.1 as int),
        Err(failure) => named == Err::<ListingView<E>, _>(failure@),
    }
}

/// The commodity market a payload is, or why it is none.
pub uninterp spec fn commodity_of(json: Json) -> Result<ListingView<Market>, FailureView>;

/// Reads a payload as an [`elite_journal::Entry`] of an
/// [`elite_journal::entry::Market`] with [`serde_json::from_value`]
///
/// The contract names the result, which depends on the payload alone: the
/// entry; when it was written, a moment `chrono` can name; its market; and where
/// it would not read, why.
#[verifier::external_body]
fn parse_commodity(message: &serde_json::Value) -> (read: Result<
    (Entry<Market>, (i64, u32), Option<i64>),
    Failure,
>)
    ensures
        read_as(read, commodity_of(json_of(*message))),
{
    let read = serde_json::from_value::<Entry<Market>>(message.clone());
    let entry = read.map_err(
        |err| Failure { said: err.to_string(), line: err.line(), column: err.column() },
    )?;
    let at = (entry.timestamp.timestamp(), entry.timestamp.timestamp_subsec_nanos());
    let market_id = Some(entry.event.market_id);
    Ok((entry, at, market_id))
}

/// The outfitting bay a payload is, or why it is none.
pub uninterp spec fn outfitting_of(json: Json) -> Result<ListingView<Outfitting>, FailureView>;

/// Reads a payload as an [`elite_journal::Entry`] of an
/// [`elite_journal::entry::market::Outfitting`] with [`serde_json::from_value`]
///
/// The contract names the result, which depends on the payload alone: the
/// entry; when it was written, a moment `chrono` can name; its market; and where
/// it would not read, why.
#[verifier::external_body]
fn parse_outfitting(message: &serde_json::Value) -> (read: Result<
    (Entry<Outfitting>, (i64, u32), Option<i64>),
    Failure,
>)
    ensures
        read_as(read, outfitting_of(json_of(*message))),
{
    let read = serde_json::from_value::<Entry<Outfitting>>(message.clone());
    let entry = read.map_err(
        |err| Failure { said: err.to_string(), line: err.line(), column: err.column() },
    )?;
    let at = (entry.timestamp.timestamp(), entry.timestamp.timestamp_subsec_nanos());
    let market_id = Some(entry.event.market_id);
    Ok((entry, at, market_id))
}

/// The shipyard a payload is, or why it is none.
pub uninterp spec fn shipyard_of(json: Json) -> Result<ListingView<Shipyard>, FailureView>;

/// Reads a payload as an [`elite_journal::Entry`] of an
/// [`elite_journal::entry::market::Shipyard`] with [`serde_json::from_value`]
///
/// The contract names the result, which depends on the payload alone: the
/// entry; when it was written, a moment `chrono` can name; its market; and where
/// it would not read, why.
#[verifier::external_body]
fn parse_shipyard(message: &serde_json::Value) -> (read: Result<
    (Entry<Shipyard>, (i64, u32), Option<i64>),
    Failure,
>)
    ensures
        read_as(read, shipyard_of(json_of(*message))),
{
    let read = serde_json::from_value::<Entry<Shipyard>>(message.clone());
    let entry = read.map_err(
        |err| Failure { said: err.to_string(), line: err.line(), column: err.column() },
    )?;
    let at = (entry.timestamp.timestamp(), entry.timestamp.timestamp_subsec_nanos());
    let market_id = Some(entry.event.market_id);
    Ok((entry, at, market_id))
}

/// The black market sale a payload is, or why it is none.
pub uninterp spec fn black_market_of(json: Json) -> Result<ListingView<BlackMarket>, FailureView>;

/// Reads a payload as an [`elite_journal::Entry`] of an
/// [`elite_journal::entry::market::BlackMarket`] with
/// [`serde_json::from_value`]
///
/// The contract names the result, which depends on the payload alone: the
/// entry; when it was written, a moment `chrono` can name; its market where it
/// names one; and where it would not read, why.
#[verifier::external_body]
fn parse_black_market(message: &serde_json::Value) -> (read: Result<
    (Entry<BlackMarket>, (i64, u32), Option<i64>),
    Failure,
>)
    ensures
        read_as(read, black_market_of(json_of(*message))),
{
    let read = serde_json::from_value::<Entry<BlackMarket>>(message.clone());
    let entry = read.map_err(
        |err| Failure { said: err.to_string(), line: err.line(), column: err.column() },
    )?;
    let at = (entry.timestamp.timestamp(), entry.timestamp.timestamp_subsec_nanos());
    let market_id = entry.event.market_id;
    Ok((entry, at, market_id))
}

/// Whether a listing is the one named, or is refused for the reason named.
pub open spec fn listed<E>(
    read: Result<Listing<E>, Failure>,
    named: Result<ListingView<E>, FailureView>,
) -> bool {
    match read {
        Ok(listing) => named == Ok::<_, FailureView>(listing@),
        Err(failure) => named == Err::<ListingView<E>, _>(failure@),
    }
}

/// A listing, made of what was read.
fn listing<E>(
    read: Result<(Entry<E>, (i64, u32), Option<i64>), Failure>,
    Ghost(named): Ghost<Result<ListingView<E>, FailureView>>,
) -> (listing: Result<Listing<E>, Failure>)
    requires
        read_as(read, named),
    ensures
        listed(listing, named),
{
    match read {
        Ok((entry, at, market_id)) => Ok(Listing { entry, timestamp: moment(at), market_id }),
        Err(failure) => Err(failure),
    }
}

/// Read a payload as a commodity market.
pub fn read_commodity(message: &serde_json::Value) -> (read: Result<Listing<Market>, Failure>)
    ensures
        listed(read, commodity_of(json_of(*message))),
{
    listing(parse_commodity(message), Ghost(commodity_of(json_of(*message))))
}

/// Read a payload as an outfitting bay.
pub fn read_outfitting(message: &serde_json::Value) -> (read: Result<Listing<Outfitting>, Failure>)
    ensures
        listed(read, outfitting_of(json_of(*message))),
{
    listing(parse_outfitting(message), Ghost(outfitting_of(json_of(*message))))
}

/// Read a payload as a shipyard.
pub fn read_shipyard(message: &serde_json::Value) -> (read: Result<Listing<Shipyard>, Failure>)
    ensures
        listed(read, shipyard_of(json_of(*message))),
{
    listing(parse_shipyard(message), Ghost(shipyard_of(json_of(*message))))
}

/// Read a payload as a black market sale.
pub fn read_black_market(message: &serde_json::Value) -> (read: Result<
    Listing<BlackMarket>,
    Failure,
>)
    ensures
        listed(read, black_market_of(json_of(*message))),
{
    listing(parse_black_market(message), Ghost(black_market_of(json_of(*message))))
}

/// An entry that arrives somewhere is taken for its arrival, whatever else it
/// could be; any other is taken for the visit or the survey it is.
pub proof fn an_arrival_is_taken_before_a_visit(entry: Entry<Event>)
    ensures
        arrival_of(entry) is Other ==> event_of(entry) == visit_of(entry),
        !(arrival_of(entry) is Other) ==> event_of(entry) == arrival_of(entry),
        event_of(entry) is Other <==> arrival_of(entry) is Other && visit_of(entry) is Other,
{
}

/// An entry read carries all that was named of it: itself, when it was written,
/// where it leads, what it is called and what it is taken for.
pub proof fn an_entry_carries_all_that_was_named(journal: Journal, json: Json)
    requires
        journal.reads(json),
    ensures
        journal_of(json) == Ok::<_, FailureView>(
            JournalView {
                entry: journal.entry,
                timestamp: journal.timestamp@,
                route: texts(journal.route@),
            },
        ),
        journal.label@ == name_of(event_rendered(journal.entry)),
        arrival_of(journal.entry) is Other ==> journal.event == visit_of(journal.entry),
        !(arrival_of(journal.entry) is Other) ==> journal.event == arrival_of(journal.entry),
{
}

/// A listing read carries the entry, when it was written and the market it is
/// of, and one that would not read says why.
pub proof fn a_listing_carries_all_that_was_named<E>(
    read: Result<Listing<E>, Failure>,
    named: Result<ListingView<E>, FailureView>,
)
    requires
        listed(read, named),
    ensures
        read is Ok <==> named is Ok,
        read is Ok ==> read->Ok_0.entry == named->Ok_0.entry && read->Ok_0.timestamp@
            == named->Ok_0.timestamp && read->Ok_0.market_id == named->Ok_0.market_id,
        read is Err ==> read->Err_0.said@ == named->Err_0.said && read->Err_0.line
            == named->Err_0.line && read->Err_0.column == named->Err_0.column,
{
}

} // verus!
