//! Envelopes: a message, who sent it, and what its reference says of it.

use crate::error::Failure;
use crate::json::{
    field, has_any_text_under, has_text_under, json_of, keys_of, maybe, text_under,
    the_first_key_with_a_text_is_read, Json,
};
use crate::message::{kind_of, reads_payload, refusal, Message};
use crate::moment::Moment;
use crate::schema::{
    a_reference_says_what_it_is_made_of, a_text_without_the_mark_is_no_reference, schema_of, Schema,
};
use crate::text::{first_at, holds};
use vstd::prelude::*;

verus! {

/// Message uploader metadata
#[derive(Debug)]
pub struct Header {
    pub gateway_timestamp: Moment,
    pub software_name: String,
    pub software_version: String,
    pub uploader_id: String,
}

/// What the envelope looks like before its payload has been placed
///
/// The payload cannot be read until the `$schemaRef` above it has been, so
/// it is held as JSON for exactly as long as it takes to read the rest.
#[derive(Debug)]
pub struct RawEnvelope {
    pub schema_ref: String,
    pub header: Header,
    pub message: serde_json::Value,
}

/// Top level EDDN message wrapper
#[derive(Debug)]
pub struct Envelope {
    pub schema_ref: String,
    pub header: Header,
    pub message: Message,
    /// Whether this is the galaxy everyone is in
    ///
    /// EDDN carries alpha and beta game data on the same socket as live data,
    /// separated only by a `/test` suffix on the `$schemaRef`. It parses like
    /// anything else and describes somewhere that is not the live galaxy, so
    /// recording it is a mistake rather than a choice.
    pub live: bool,
    /// Which version of its schema the sender wrote to, as the reference
    /// spells it
    ///
    /// [`None`] only where the reference is not one EDDN sends, which is the
    /// same case that leaves a message [`Message::Unmodeled`].
    pub version: Option<String>,
    /// The system this message names, where it names one
    ///
    /// `StarSystem`, `SystemName` or `System` on the journal schemas,
    /// `systemName` on the market ones. [`None`] only where none of the keys
    /// holds a text.
    pub star_system: Option<String>,
    /// The station this message names, where it names one
    ///
    /// `StationName` on the journal schemas, `stationName` on the market ones.
    pub station: Option<String>,
    /// The body this message names, where it names one
    ///
    /// `BodyName` on most events, `Body` on the few that spell it that way.
    pub body: Option<String>,
}

/// The keys a system is named under, in the order they are tried.
pub open spec fn system_keys() -> Seq<Seq<char>> {
    seq!["StarSystem"@, "SystemName"@, "System"@, "systemName"@]
}

/// The keys a station is named under.
pub open spec fn station_keys() -> Seq<Seq<char>> {
    seq!["StationName"@, "stationName"@]
}

/// The keys a body is named under.
pub open spec fn body_keys() -> Seq<Seq<char>> {
    seq!["BodyName"@, "Body"@]
}

/// The name a reference routes by, where it has one.
pub open spec fn routed_name(schema_ref: Seq<char>) -> Option<Seq<char>> {
    match schema_of(schema_ref) {
        Some(schema) => Some(schema.name),
        None => None,
    }
}

/// Whether a reference describes the live galaxy. One that cannot be read
/// marks nothing as test data, and is taken at its word.
pub open spec fn describes_live(schema_ref: Seq<char>) -> bool {
    match schema_of(schema_ref) {
        Some(schema) => schema.live,
        None => true,
    }
}

/// Whether this is what a raw envelope reads as: placed, unless its payload will
/// not read as its kind.
pub open spec fn reads_raw(raw: RawEnvelope, read: Result<Envelope, Failure>) -> bool {
    let kind = kind_of(routed_name(raw.schema_ref@));
    let json = json_of(raw.message);
    match read {
        Ok(envelope) => refusal(kind, json) is None && envelope.places(raw),
        Err(failure) => refusal(kind, json) == Some(failure@),
    }
}

impl Envelope {
    /// Whether this is the envelope a raw one is placed as.
    pub open spec fn places(self, raw: RawEnvelope) -> bool {
        let json = json_of(raw.message);
        &&& self.schema_ref == raw.schema_ref
        &&& self.header == raw.header
        &&& self.message.kind() == kind_of(routed_name(raw.schema_ref@))
        &&& self.message.reads(json)
        &&& self.live == describes_live(raw.schema_ref@)
        &&& maybe(self.version) == match schema_of(raw.schema_ref@) {
            Some(schema) => Some(schema.version),
            None => None,
        }
        &&& maybe(self.star_system) == text_under(json, system_keys())
        &&& maybe(self.station) == text_under(json, station_keys())
        &&& maybe(self.body) == text_under(json, body_keys())
    }

    /// Place a raw envelope's payload by the reference above it
    ///
    /// The system, station and body named at the top of the payload are read
    /// here. Each key differs by schema, so every spelling it is sent under is
    /// tried, rather than dug out of whichever event or market shape the
    /// payload became.
    pub fn read(raw: RawEnvelope) -> (read: Result<Envelope, Failure>)
        ensures
            reads_raw(raw, read),
    {
        let RawEnvelope { schema_ref, header, message } = raw;
        let keys: Vec<&'static str> = vec!["StarSystem", "SystemName", "System", "systemName"];
        assert(keys_of(keys@) == system_keys());
        let star_system = field(&message, &keys);
        let keys: Vec<&'static str> = vec!["StationName", "stationName"];
        assert(keys_of(keys@) == station_keys());
        let station = field(&message, &keys);
        let keys: Vec<&'static str> = vec!["BodyName", "Body"];
        assert(keys_of(keys@) == body_keys());
        let body = field(&message, &keys);

        let (name, live, version): (Option<&str>, bool, Option<String>) = match Schema::read(
            schema_ref.as_str(),
        ) {
            Some(schema) => (Some(schema.name), schema.live, Some(schema.version.to_owned())),
            None => (None, true, None),
        };
        match Message::read(name, message) {
            Ok(message) => Ok(
                Envelope { schema_ref, header, message, live, version, star_system, station, body },
            ),
            Err(failure) => Err(failure),
        }
    }
}

/// An envelope says no version exactly where its reference is not one EDDN
/// sends, and then its payload is kept unread and taken as live.
pub proof fn a_reference_that_makes_no_sense_is_unmodelled(envelope: Envelope, raw: RawEnvelope)
    requires
        envelope.places(raw),
    ensures
        envelope.version is None <==> schema_of(raw.schema_ref@) is None,
        envelope.version is None ==> envelope.live && envelope.message is Unmodeled,
{
}

/// Whether a message is from a test galaxy makes no difference to what its
/// payload reads as: two references that name one schema place it alike.
pub proof fn a_test_message_reads_like_a_live_one(
    live: Envelope,
    test: Envelope,
    sent_live: RawEnvelope,
    sent_test: RawEnvelope,
)
    requires
        live.places(sent_live),
        test.places(sent_test),
        routed_name(sent_live.schema_ref@) == routed_name(sent_test.schema_ref@),
        json_of(sent_live.message) == json_of(sent_test.message),
    ensures
        live.message.kind() == test.message.kind(),
        test.message.reads(json_of(sent_live.message)),
        live.message is Journal ==> live.message->Journal_0.entry
            == test.message->Journal_0.entry && live.message->Journal_0.event
            == test.message->Journal_0.event,
        live.message.written_at() == test.message.written_at(),
        maybe(live.star_system) == maybe(test.star_system),
        maybe(live.station) == maybe(test.station),
        maybe(live.body) == maybe(test.body),
{
}

/// A message names the system its payload does, under the first of these keys
/// that holds a text there, and none where none of them does.
pub proof fn a_message_names_its_system(
    envelope: Envelope,
    raw: RawEnvelope,
    json: Json,
    text: Seq<char>,
)
    requires
        envelope.places(raw),
        json == json_of(raw.message),
    ensures
        ({
            let first = has_any_text_under(json, "StarSystem"@);
            let second = has_any_text_under(json, "SystemName"@);
            let third = has_any_text_under(json, "System"@);
            let fourth = has_any_text_under(json, "systemName"@);
            let named = maybe(envelope.star_system);
            &&& has_text_under(json, "StarSystem"@, text) ==> named == Some(text)
            &&& !first && has_text_under(json, "SystemName"@, text) ==> named == Some(text)
            &&& !first && !second && has_text_under(json, "System"@, text) ==> named == Some(text)
            &&& !first && !second && !third && has_text_under(json, "systemName"@, text) ==> named
                == Some(text)
            &&& !first && !second && !third && !fourth ==> named is None
        }),
{
    let keys = system_keys();
    let first = has_any_text_under(json, keys[0]);
    let second = has_any_text_under(json, keys[1]);
    let third = has_any_text_under(json, keys[2]);
    let fourth = has_any_text_under(json, keys[3]);
    the_first_key_with_a_text_is_read(json, keys, 0);
    if !first {
        the_first_key_with_a_text_is_read(json, keys, 1);
    }
    if !first && !second {
        the_first_key_with_a_text_is_read(json, keys, 2);
    }
    if !first && !second && !third {
        the_first_key_with_a_text_is_read(json, keys, 3);
    }
    if !first && !second && !third && !fourth {
        the_first_key_with_a_text_is_read(json, keys, 4);
    }
}

/// A message names the station its payload does, under the first of these keys
/// that holds a text there, and none where neither does.
pub proof fn a_message_names_its_station(
    envelope: Envelope,
    raw: RawEnvelope,
    json: Json,
    text: Seq<char>,
)
    requires
        envelope.places(raw),
        json == json_of(raw.message),
    ensures
        has_text_under(json, "StationName"@, text) ==> maybe(envelope.station) == Some(text),
        !has_any_text_under(json, "StationName"@) && has_text_under(json, "stationName"@, text) ==> maybe(
            envelope.station,
        ) == Some(text),
        !has_any_text_under(json, "StationName"@) && !has_any_text_under(json, "stationName"@)
            ==> envelope.station is None,
{
    let keys = station_keys();
    the_first_key_with_a_text_is_read(json, keys, 0);
    if !has_any_text_under(json, keys[0]) {
        the_first_key_with_a_text_is_read(json, keys, 1);
    }
    if !has_any_text_under(json, keys[0]) && !has_any_text_under(json, keys[1]) {
        the_first_key_with_a_text_is_read(json, keys, 2);
    }
}

/// A message names the body its payload does, under the first of these keys
/// that holds a text there, and none where neither does.
pub proof fn a_message_names_its_body(
    envelope: Envelope,
    raw: RawEnvelope,
    json: Json,
    text: Seq<char>,
)
    requires
        envelope.places(raw),
        json == json_of(raw.message),
    ensures
        has_text_under(json, "BodyName"@, text) ==> maybe(envelope.body) == Some(text),
        !has_any_text_under(json, "BodyName"@) && has_text_under(json, "Body"@, text) ==> maybe(
            envelope.body,
        ) == Some(text),
        !has_any_text_under(json, "BodyName"@) && !has_any_text_under(json, "Body"@)
            ==> envelope.body is None,
{
    let keys = body_keys();
    the_first_key_with_a_text_is_read(json, keys, 0);
    if !has_any_text_under(json, keys[0]) {
        the_first_key_with_a_text_is_read(json, keys, 1);
    }
    if !has_any_text_under(json, keys[0]) && !has_any_text_under(json, keys[1]) {
        the_first_key_with_a_text_is_read(json, keys, 2);
    }
}

/// A message is placed by the reference above it: sent under a schema at a
/// version, it is of that version, of the test galaxies exactly where the
/// reference ends in `/test`, and of the kind that schema carries; and it keeps
/// the reference and the header it came with.
pub proof fn a_message_is_placed_by_its_reference(
    envelope: Envelope,
    raw: RawEnvelope,
    gateway: Seq<char>,
    name: Seq<char>,
    version: Seq<char>,
)
    requires
        envelope.places(raw),
        first_at(gateway + "/schemas/"@, "/schemas/"@, gateway.len() as int),
        !name.contains('/'),
        !version.contains('/'),
    ensures
        envelope.schema_ref == raw.schema_ref && envelope.header == raw.header,
        raw.schema_ref@ == gateway + "/schemas/"@ + (name + "/"@ + version) ==> {
            &&& maybe(envelope.version) == Some(version)
            &&& envelope.live
            &&& envelope.message.kind() == kind_of(Some(name))
        },
        raw.schema_ref@ == gateway + "/schemas/"@ + (name + "/"@ + (version + "/"@ + "test"@)) ==> {
            &&& maybe(envelope.version) == Some(version)
            &&& !envelope.live
            &&& envelope.message.kind() == kind_of(Some(name))
        },
{
    reveal_strlit("test");
    a_reference_says_what_it_is_made_of(gateway, name, version, "test"@);
}

/// A message whose reference has no schema in it is kept as it came, live and
/// of no version.
pub proof fn a_message_of_no_schema_is_kept(envelope: Envelope, raw: RawEnvelope)
    requires
        envelope.places(raw),
        !holds(raw.schema_ref@, "/schemas/"@),
    ensures
        envelope.live && envelope.version is None,
        envelope.message matches Message::Unmodeled(kept) && json_of(kept) == json_of(raw.message),
{
    a_text_without_the_mark_is_no_reference(raw.schema_ref@);
}

/// A message whose reference has a schema and no version is kept as it came
/// too, live and of no version: it is no reference that EDDN sends.
pub proof fn a_message_of_no_version_is_kept(
    envelope: Envelope,
    raw: RawEnvelope,
    gateway: Seq<char>,
    name: Seq<char>,
)
    requires
        envelope.places(raw),
        first_at(gateway + "/schemas/"@, "/schemas/"@, gateway.len() as int),
        !name.contains('/'),
        raw.schema_ref@ == gateway + "/schemas/"@ + name,
    ensures
        envelope.live && envelope.version is None,
        envelope.message matches Message::Unmodeled(kept) && json_of(kept) == json_of(raw.message),
{
    let none = Seq::<char>::empty();
    assert(!none.contains('/'));
    a_reference_says_what_it_is_made_of(gateway, name, none, none);
}

/// An envelope is refused exactly where its payload is, for the same reason,
/// whatever else is in it.
pub proof fn an_envelope_is_refused_where_its_payload_is(
    raw: RawEnvelope,
    read: Result<Envelope, Failure>,
    payload: Result<Message, Failure>,
)
    requires
        reads_raw(raw, read),
        reads_payload(routed_name(raw.schema_ref@), json_of(raw.message), payload),
    ensures
        read is Err <==> payload is Err,
        read is Err ==> read->Err_0@ == payload->Err_0@,
        read is Ok ==> read->Ok_0.message.kind() == payload->Ok_0.kind()
            && read->Ok_0.places(raw),
{
}

} // verus!
