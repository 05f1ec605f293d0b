//! Frames read into messages, live and off a spool held in memory.

use chrono::{DateTime, TimeZone, Utc};
use eddn::envelope::{Envelope, Header, RawEnvelope};
use eddn::error::{Error, Failure, Fault, FaultKind, Inflation};
use eddn::frame::{reading, Frame, Reading, Taken};
use eddn::galaxy::Galaxy;
use eddn::journal::Sighting;
use eddn::message::{kind, Kind, Message};
use eddn::moment::Moment;
use eddn::network::{Heard, Network, Turn};
use eddn::position::Position;
use eddn::schema::Schema;
use eddn::spool::cursor::{cursors, legible_cursors, read_cursor, scratch_name, write_cursor};
use eddn::spool::reader::{end, Replay, Sight, Spool, Start, Step};
use eddn::spool::record::{decode, encode, extent, kept, whole, Found, HEAD, LARGEST, RECEIVED};
use eddn::spool::recorder::{goes_on, Recorder, LONGEST_WINDOW};
use eddn::spool::segment::{file_name, opened, segment_name, segments};
use elite_journal::entry::incremental::exploration::ScanTarget;
use elite_journal::entry::Event;
use serde::de::{Deserialize, Deserializer, Error as _, MapAccess, Visitor};
use serde_json::Value;
use std::collections::BTreeMap;

/// A header as JSON spells it.
struct HeaderJson(Header);

struct HeaderVisitor;

impl<'de> Visitor<'de> for HeaderVisitor {
    type Value = HeaderJson;

    fn expecting(&self, f: &mut std::fmt::Formatter) -> std::fmt::Result {
        f.write_str("a header")
    }

    fn visit_map<A: MapAccess<'de>>(self, mut map: A) -> Result<HeaderJson, A::Error> {
        let mut at: Option<DateTime<Utc>> = None;
        let mut name: Option<String> = None;
        let mut version: Option<String> = None;
        let mut uploader: Option<String> = None;
        while let Some(key) = map.next_key::<String>()? {
            match key.as_str() {
                "gatewayTimestamp" => at = Some(map.next_value()?),
                "softwareName" => name = Some(map.next_value()?),
                "softwareVersion" => version = Some(map.next_value()?),
                "uploaderID" => uploader = Some(map.next_value()?),
                _ => {
                    map.next_value::<Value>()?;
                }
            }
        }
        let at = at.ok_or_else(|| A::Error::missing_field("gatewayTimestamp"))?;
        Ok(HeaderJson(Header {
            gateway_timestamp: moment(at),
            software_name: name.ok_or_else(|| A::Error::missing_field("softwareName"))?,
            software_version: version.ok_or_else(|| A::Error::missing_field("softwareVersion"))?,
            uploader_id: uploader.ok_or_else(|| A::Error::missing_field("uploaderID"))?,
        }))
    }
}

impl<'de> Deserialize<'de> for HeaderJson {
    fn deserialize<D: Deserializer<'de>>(deserializer: D) -> Result<Self, D::Error> {
        deserializer.deserialize_map(HeaderVisitor)
    }
}

/// An envelope as JSON spells it.
struct RawJson(RawEnvelope);

struct RawVisitor;

impl<'de> Visitor<'de> for RawVisitor {
    type Value = RawJson;

    fn expecting(&self, f: &mut std::fmt::Formatter) -> std::fmt::Result {
        f.write_str("an envelope")
    }

    fn visit_map<A: MapAccess<'de>>(self, mut map: A) -> Result<RawJson, A::Error> {
        let mut schema_ref: Option<String> = None;
        let mut header: Option<HeaderJson> = None;
        let mut message: Option<Value> = None;
        while let Some(key) = map.next_key::<String>()? {
            match key.as_str() {
                "$schemaRef" => schema_ref = Some(map.next_value()?),
                "header" => header = Some(map.next_value()?),
                "message" => message = Some(map.next_value()?),
                _ => {
                    map.next_value::<Value>()?;
                }
            }
        }
        Ok(RawJson(RawEnvelope {
            schema_ref: schema_ref.ok_or_else(|| A::Error::missing_field("$schemaRef"))?,
            header: header.ok_or_else(|| A::Error::missing_field("header"))?.0,
            message: message.ok_or_else(|| A::Error::missing_field("message"))?,
        }))
    }
}

impl<'de> Deserialize<'de> for RawJson {
    fn deserialize<D: Deserializer<'de>>(deserializer: D) -> Result<Self, D::Error> {
        deserializer.deserialize_map(RawVisitor)
    }
}

/// Reads an envelope out of JSON, leaving its payload as it is.
fn parse(json: &Vec<u8>) -> Result<RawEnvelope, Failure> {
    serde_json::from_slice::<RawJson>(json).map(|raw| raw.0).map_err(|err| Failure {
        said: err.to_string(),
        line: err.line(),
        column: err.column(),
    })
}

/// A moment as the library holds it.
fn moment(at: DateTime<Utc>) -> Moment {
    Moment::new(at.timestamp(), at.timestamp_subsec_nanos()).expect("a moment")
}

/// An envelope with `message` as given, and a header of no interest
fn envelope_json(schema_ref: &str, message: &str) -> String {
    format!(
        r#"{{
            "$schemaRef": "{}",
            "header": {{
                "gatewayTimestamp": "2026-08-08T12:00:00Z",
                "softwareName": "E:D Market Connector",
                "softwareVersion": "5.11.3",
                "uploaderID": "abc123"
            }},
            "message": {}
        }}"#,
        schema_ref, message,
    )
}

fn envelope(schema_ref: &str, message: &str) -> Envelope {
    let raw = parse(&envelope_json(schema_ref, message).into_bytes()).expect("envelope should parse");
    Envelope::read(raw).expect("payload should read")
}

/// A frame as it comes off the socket: the JSON, zlib'd
fn zlib(schema_ref: &str, message: &str) -> Vec<u8> {
    miniz_oxide::deflate::compress_to_vec_zlib(envelope_json(schema_ref, message).as_bytes(), 6)
}

const JUMP: &str = r#"{
    "timestamp": "2026-08-08T12:00:00Z",
    "event": "FSDJump",
    "StarSystem": "Sol",
    "StarPos": [0.0, 0.0, 0.0],
    "SystemAddress": 10477373803
}"#;

const JOURNAL: &str = "https://eddn.edcd.io/schemas/journal/1";
const JOURNAL_TEST: &str = "https://eddn.edcd.io/schemas/journal/1/test";

const JOURNAL_SCHEMAS: [&str; 12] = [
    "journal",
    "approachsettlement",
    "codexentry",
    "dockingdenied",
    "dockinggranted",
    "fssallbodiesfound",
    "fssbodysignals",
    "fssdiscoveryscan",
    "fsssignaldiscovered",
    "navbeaconscan",
    "navroute",
    "scanbarycentre",
];

// Placing a message by the schema it was sent under.

#[test]
fn envelope_names_its_system() {
    // Journal messages carry the system as a top-level `StarSystem`.
    let jump = envelope("https://eddn.edcd.io/schemas/journal/1", JUMP);
    assert_eq!(jump.star_system.as_deref(), Some("Sol"));

    // Market messages carry it as `systemName` instead.
    let market = envelope(
        "https://eddn.edcd.io/schemas/commodity/3",
        r#"{
            "timestamp": "2026-08-08T12:00:00Z",
            "systemName": "Shinrarta Dezhra",
            "stationName": "Jameson Memorial",
            "marketId": 128666762,
            "commodities": []
        }"#,
    );
    assert_eq!(market.star_system.as_deref(), Some("Shinrarta Dezhra"));
    assert_eq!(market.station.as_deref(), Some("Jameson Memorial"));

    // FSSDiscoveryScan names it `SystemName`, not `StarSystem`.
    let fss = envelope(
        "https://eddn.edcd.io/schemas/fssdiscoveryscan/1",
        r#"{
            "timestamp": "2026-08-08T12:00:00Z",
            "event": "FSSDiscoveryScan",
            "SystemName": "M52 Sector PF-T b18-0",
            "SystemAddress": 1234,
            "BodyCount": 5,
            "NonBodyCount": 2
        }"#,
    );
    assert_eq!(fss.star_system.as_deref(), Some("M52 Sector PF-T b18-0"));
}

/// The event's own time is read, typed or not, and absent where unwritten
#[test]
fn a_message_gives_up_its_event_time() {
    let when: DateTime<Utc> = "2026-08-08T12:00:00Z".parse().expect("fixture time parses");

    // A typed journal entry reads it off the entry.
    let jump = envelope("https://eddn.edcd.io/schemas/journal/1", JUMP);
    assert_eq!(jump.message.timestamp(), Some(moment(when)));

    // An unmodeled payload is still raw JSON, read from its key.
    let unread = envelope("nonsense", JUMP);
    assert!(matches!(unread.message, Message::Unmodeled(_)));
    assert_eq!(unread.message.timestamp(), Some(moment(when)));

    // Nothing there to read leaves nothing to return.
    let bare = Message::Unmodeled(serde_json::from_str("{}").unwrap());
    assert_eq!(bare.timestamp(), None);
}

/// A market says its time like any other, and a time that is none is no time
#[test]
fn an_unread_time_is_no_time() {
    let spoilt = envelope("nonsense", r#"{"timestamp": "yesterday"}"#);
    assert_eq!(spoilt.message.timestamp(), None);
    let number = envelope("nonsense", r#"{"timestamp": 12}"#);
    assert_eq!(number.message.timestamp(), None);

    let offset = envelope("nonsense", r#"{"timestamp": "2026-08-08T14:00:00.25+02:00"}"#);
    assert_eq!(offset.message.timestamp(), Moment::new(1_786_190_400, 250_000_000));
}

/// Every schema whose payload is a journal event reads as one
#[test]
fn the_standalone_journal_schemas_read_as_journal_entries() {
    for name in JOURNAL_SCHEMAS {
        let reference = format!("https://eddn.edcd.io/schemas/{}/1", name);
        let envelope = envelope(&reference, JUMP);

        assert!(
            matches!(envelope.message, Message::Journal(_)),
            "{} did not read as a journal entry",
            name,
        );
        assert_eq!(kind(Some(name)), Kind::Journal);
    }
}

/// The three that carry no `event`
#[test]
fn the_schemas_with_no_event_are_placed_by_their_reference() {
    let outfitting = envelope(
        "https://eddn.edcd.io/schemas/outfitting/3",
        r#"{
            "timestamp": "2026-08-08T12:00:00Z",
            "systemName": "Sol",
            "stationName": "Abraham Lincoln",
            "marketId": 128016384,
            "modules": ["Int_Engine_Size3_Class5_Fast"]
        }"#,
    );
    assert!(matches!(outfitting.message, Message::Outfitting(_)));

    let shipyard = envelope(
        "https://eddn.edcd.io/schemas/shipyard/2",
        r#"{
            "timestamp": "2026-08-08T12:00:00Z",
            "systemName": "Sol",
            "stationName": "Abraham Lincoln",
            "marketId": 128016384,
            "ships": ["SideWinder"]
        }"#,
    );
    assert!(matches!(shipyard.message, Message::Shipyard(_)));

    let black_market = envelope(
        "https://eddn.edcd.io/schemas/blackmarket/1",
        r#"{
            "timestamp": "2026-08-08T12:00:00Z",
            "systemName": "Sol",
            "stationName": "Abraham Lincoln",
            "name": "Gold",
            "sellPrice": 9432,
            "prohibited": false
        }"#,
    );
    assert!(matches!(black_market.message, Message::BlackMarket(_)));

    // Each says when it was written, and the market it is of where it says one.
    let when = Moment::new(1_786_190_400, 0);
    assert_eq!(outfitting.message.timestamp(), when);
    assert_eq!(shipyard.message.timestamp(), when);
    assert_eq!(black_market.message.timestamp(), when);
    match (outfitting.message, shipyard.message, black_market.message) {
        (Message::Outfitting(o), Message::Shipyard(s), Message::BlackMarket(b)) => {
            assert_eq!(o.market_id, Some(128016384));
            assert_eq!(s.market_id, Some(128016384));
            assert_eq!(b.market_id, None);
        }
        _ => panic!("placed elsewhere"),
    }
}

/// Alpha and beta traffic is marked, not turned into something else
#[test]
fn test_schemas_are_read_but_not_live() {
    let envelope = envelope("https://eddn.edcd.io/schemas/journal/1/test", JUMP);

    assert!(!envelope.live);
    assert!(matches!(envelope.message, Message::Journal(_)));
}

/// A schema nothing reads is kept rather than dropped
#[test]
fn an_unmodelled_schema_is_kept() {
    let envelope = envelope(
        "https://eddn.edcd.io/schemas/fcmaterials_journal/1",
        r#"{
            "timestamp": "2026-08-08T12:00:00Z",
            "event": "FCMaterials",
            "MarketID": 3700571136,
            "CarrierID": "K7Q-BQL",
            "CarrierName": "Nomad",
            "Items": []
        }"#,
    );

    assert!(matches!(envelope.message, Message::Unmodeled(_)));
    assert_eq!(envelope.schema_ref, "https://eddn.edcd.io/schemas/fcmaterials_journal/1");
}

/// A reference that is not one EDDN sends places nothing, and is kept
#[test]
fn a_reference_that_makes_no_sense_is_unmodelled() {
    assert_eq!(Schema::read("nonsense"), None);
    assert_eq!(Schema::read("https://eddn.edcd.io/schemas/journal"), None);

    let envelope = envelope("nonsense", JUMP);
    assert!(matches!(envelope.message, Message::Unmodeled(_)));
    // Nothing to report, rather than a version invented for the occasion.
    assert_eq!(envelope.version, None);
    // And read as the live galaxy: `/test` is the only thing that says
    // otherwise.
    assert!(envelope.live);
}

/// The name, the version and the galaxy, off the end of the reference
#[test]
fn a_reference_reads_into_what_it_says() {
    assert_eq!(
        Schema::read("https://eddn.edcd.io/schemas/commodity/3"),
        Some(Schema { name: "commodity", version: "3", live: true }),
    );
    assert_eq!(
        Schema::read("https://eddn.edcd.io/schemas/shipyard/2/test"),
        Some(Schema { name: "shipyard", version: "2", live: false }),
    );
}

/// Only a third part spelled `test` says the galaxy is not the live one
#[test]
fn only_test_marks_a_reference() {
    let other = Schema::read("x/schemas/a/1/testing").expect("a schema");
    assert!(other.live);
    let further = Schema::read("x/schemas/a/1/test/more").expect("a schema");
    assert!(!further.live);
    let bare = Schema::read("/schemas//").expect("a schema");
    assert_eq!((bare.name, bare.version, bare.live), ("", "", true));
    // The first mark splits it, whatever stands after.
    let twice = Schema::read("/schemas/a/schemas/b").expect("a schema");
    assert_eq!((twice.name, twice.version, twice.live), ("a", "schemas", true));
}

/// The version is reported without being acted on
#[test]
fn the_version_is_said_even_though_nothing_turns_on_it() {
    let old = envelope(
        "https://eddn.edcd.io/schemas/outfitting/2",
        r#"{
            "timestamp": "2026-08-08T12:00:00Z",
            "systemName": "Sol",
            "stationName": "Abraham Lincoln",
            "marketId": 128016384,
            "modules": ["Int_Engine_Size3_Class5_Fast"]
        }"#,
    );
    let new = envelope(
        "https://eddn.edcd.io/schemas/outfitting/3",
        r#"{
            "timestamp": "2026-08-08T12:00:00Z",
            "systemName": "Sol",
            "stationName": "Abraham Lincoln",
            "marketId": 128016384,
            "modules": [{
                "id": 128064258,
                "Name": "Int_Engine_Size3_Class5_Fast",
                "BuyPrice": 5103953,
                "BuyMercCoinsPrice": 0
            }]
        }"#,
    );

    assert_eq!(old.version.as_deref(), Some("2"));
    assert_eq!(new.version.as_deref(), Some("3"));

    assert!(matches!(old.message, Message::Outfitting(_)));
    assert!(matches!(new.message, Message::Outfitting(_)));
}

/// A key that holds no text is passed over for the next one that does
#[test]
fn the_first_key_with_a_text_decides() {
    let shadowed = envelope("nonsense", r#"{"StarSystem": 7, "systemName": "Sol"}"#);
    assert_eq!(shadowed.star_system.as_deref(), Some("Sol"));
    let null = envelope("nonsense", r#"{"StarSystem": null, "SystemName": "Sol"}"#);
    assert_eq!(null.star_system.as_deref(), Some("Sol"));
    let nowhere = envelope("nonsense", r#"{"StarSystem": 7, "systemName": null}"#);
    assert_eq!(nowhere.star_system, None);
    let body = envelope("nonsense", r#"{"Body": "Sol 3", "BodyName": "Sol 4"}"#);
    assert_eq!(body.body.as_deref(), Some("Sol 4"));
    let spelled = envelope("nonsense", r#"{"System": "Sol", "stationName": "Hub", "Body": "A"}"#);
    assert_eq!(spelled.star_system.as_deref(), Some("Sol"));
    assert_eq!(spelled.station.as_deref(), Some("Hub"));
    assert_eq!(spelled.body.as_deref(), Some("A"));
    // A payload that is no object names nothing.
    let list = envelope("nonsense", "[1, 2]");
    assert_eq!((list.star_system, list.station, list.body), (None, None, None));
}

// What comes off the socket, short of the socket itself.

/// A frame as it would come off the socket at `secs` past the epoch
fn arrived(schema_ref: &str, message: &str, secs: i64) -> Frame {
    Frame {
        received_at: Moment::new(secs, 0).expect("a moment"),
        bytes: zlib(schema_ref, message),
    }
}

/// A zlib frame of `json`, whatever the json is
fn deflated(json: &[u8]) -> Frame {
    Frame {
        received_at: moment(Utc::now()),
        bytes: miniz_oxide::deflate::compress_to_vec_zlib(json, 6),
    }
}

/// Live data is handed over, with the moment it arrived
#[test]
fn a_live_frame_is_handed_over() {
    let read = arrived(JOURNAL, JUMP, 1_700_000_000)
        .read(Galaxy::LIVE, parse)
        .expect("a live frame should be handed over")
        .expect("and should read");

    assert!(read.envelope.live);
    assert!(matches!(read.envelope.message, Message::Journal(_)));
    // The frame's own moment, not the moment it was read.
    assert_eq!(read.received_at.secs(), 1_700_000_000);
}

/// And alpha and beta data is not
#[test]
fn a_test_frame_is_let_go() {
    let test = arrived(JOURNAL_TEST, JUMP, 0);
    let live = arrived(JOURNAL, JUMP, 0);

    // Live: the test frame is dropped; All keeps it.
    assert!(test.read(Galaxy::LIVE, parse).is_none());
    let kept = test
        .read(Galaxy::ALL, parse)
        .expect("a test frame should be kept under All")
        .expect("and should read");
    assert!(!kept.envelope.live);
    // And Test drops the live galaxy.
    assert!(live.read(Galaxy::TEST, parse).is_none());
}

/// A frame that will not read is reported rather than let go
#[test]
fn a_frame_that_will_not_read_is_reported() {
    // Not zlib at all.
    let bare = Frame { received_at: moment(Utc::now()), bytes: b"not zlib".to_vec() };
    assert!(matches!(bare.read(Galaxy::LIVE, parse), Some(Err(Error::Decompress(_)))));

    // Zlib, but not an envelope.
    assert!(matches!(
        deflated(b"{}").read(Galaxy::LIVE, parse),
        Some(Err(Error::Parse { .. })),
    ));

    // An envelope whose payload disagrees with the schema it was sent under.
    let json = envelope_json(
        JOURNAL,
        r#"{
            "timestamp": "2026-08-08T12:00:00Z",
            "event": "FSDJump",
            "StarSystem": "Sol",
            "StarPos": "nowhere",
            "SystemAddress": 10477373803
        }"#,
    );
    assert!(matches!(
        deflated(json.as_bytes()).read(Galaxy::LIVE, parse),
        Some(Err(Error::Parse { .. })),
    ));
}

/// A payload error carries the message, so the field can be found
#[test]
fn a_payload_error_keeps_the_message_it_could_not_read() {
    let json = envelope_json(
        "https://eddn.edcd.io/schemas/fssdiscoveryscan/1",
        r#"{
            "timestamp": "2026-08-08T12:00:00Z",
            "event": "FSSDiscoveryScan",
            "SystemName": "Sol",
            "StarPos": [0.0, 0.0, 0.0],
            "SystemAddress": 10477373803,
            "BodyCount": "",
            "NonBodyCount": 3,
            "Progress": 1.0
        }"#,
    );
    let Some(Err(err)) = deflated(json.as_bytes()).read(Galaxy::LIVE, parse) else {
        panic!("a payload that will not read should be reported")
    };
    let said = err.said();

    assert!(said.contains("BodyCount"), "did not name the field: {}", said);
    // Read out of a value, so there is no offset to point at and none is
    // offered.
    assert!(err.near().is_none(), "pointed somewhere anyway: {}", said);
    assert_eq!(err.json(), Some(json.as_str()));
}

/// A malformed envelope does point at where reading stopped
#[test]
fn a_malformed_envelope_shows_where_it_stopped() {
    let truncated = br#"{"$schemaRef": "https://eddn.edcd.io/schemas/journal/1", "heade"#;

    let Some(Err(err)) = deflated(truncated).read(Galaxy::LIVE, parse) else {
        panic!("a malformed envelope should be reported")
    };

    let near = err.near().expect("should point at where it stopped");
    assert!(near.contains("heade"), "pointed elsewhere: {}", near);
}

/// Each way a message will not decompress is told by its own name
#[test]
fn a_status_is_told_by_name() {
    let cut = Frame { received_at: Moment::new(0, 0).unwrap(), bytes: zlib(JOURNAL, JUMP)[..20].to_vec() };
    let Some(Err(err)) = cut.read(Galaxy::ALL, parse) else { panic!("it read") };
    assert_eq!(err.said(), "decompress: FailedCannotMakeProgress");

    // The last four bytes are a checksum of what was said.
    let mut spoilt = zlib(JOURNAL, JUMP);
    let last = spoilt.len() - 1;
    spoilt[last] ^= 1;
    let spoilt = Frame { received_at: Moment::new(0, 0).unwrap(), bytes: spoilt };
    let Some(Err(Error::Decompress(status))) = spoilt.read(Galaxy::ALL, parse) else {
        panic!("it read")
    };
    assert_eq!(status, Inflation::Adler32Mismatch);
}

/// A message that is not text is kept with what is not text replaced
#[test]
fn a_message_that_is_not_text_is_kept() {
    let Some(Err(err)) = deflated(b"{\"a\": \"\xff\"").read(Galaxy::LIVE, parse) else {
        panic!("it read")
    };
    assert_eq!(err.json(), Some("{\"a\": \"\u{fffd}\""));
}

/// What `read` does with a parse is what `settle` says of it
#[test]
fn a_parse_settles_what_is_handed_over() {
    let frame = arrived(JOURNAL, JUMP, 5);
    let refused = Failure { said: "no".to_owned(), line: 1, column: 1 };
    let Some(Err(Error::Parse { source, json })) = frame.settle(b"{", Err(refused), Galaxy::TEST)
    else {
        panic!("a failure should be reported, whatever the galaxy")
    };
    assert_eq!((source.said.as_str(), source.line, source.column), ("no", 1, 1));
    assert_eq!(json, "{");

    let raw = parse(&envelope_json(JOURNAL, JUMP).into_bytes()).expect("it parses");
    assert!(frame.settle(b"", Ok(raw), Galaxy::TEST).is_none());
    let raw = parse(&envelope_json(JOURNAL_TEST, JUMP).into_bytes()).expect("it parses");
    let read = frame.settle(b"", Ok(raw), Galaxy::TEST).expect("handed over").expect("read");
    assert_eq!(read.received_at, Moment::new(5, 0).unwrap());
    assert_eq!(read.envelope.schema_ref, JOURNAL_TEST);
}

/// Reading on ends with the feed, lets another galaxy go and hands the rest over
#[test]
fn reading_on_says_what_came_of_a_frame() {
    assert!(matches!(reading(None, Galaxy::LIVE, parse), Taken::Ended));
    let failed = Some(Err(Error::Socket("gone".to_owned())));
    match reading(failed, Galaxy::LIVE, parse) {
        Taken::Handed(Err(err)) => assert_eq!(err.said(), "socket: gone"),
        other => panic!("{:?}", other),
    }
    let test = Some(Ok(arrived(JOURNAL_TEST, JUMP, 0)));
    assert!(matches!(reading(test, Galaxy::LIVE, parse), Taken::LetGo));
    let live = Some(Ok(arrived(JOURNAL, JUMP, 0)));
    assert!(matches!(reading(live, Galaxy::LIVE, parse), Taken::Handed(Ok(_))));
}

/// Which galaxy a set of them shows
#[test]
fn a_galaxy_shows_what_it_holds() {
    assert_eq!(Galaxy::default(), Galaxy::LIVE);
    for (galaxy, live, test) in [
        (Galaxy::NONE, false, false),
        (Galaxy::LIVE, true, false),
        (Galaxy::TEST, false, true),
        (Galaxy::ALL, true, true),
    ] {
        assert_eq!(galaxy.shows(true), live);
        assert_eq!(galaxy.shows(false), test);
        assert_eq!(galaxy.contains(Galaxy::ALL), live && test);
        assert!(galaxy.contains(galaxy));
    }
}

/// Galaxies are a set, and taken together, apart and in bits as sets are
#[test]
fn galaxies_are_a_set() {
    let sets = [Galaxy::NONE, Galaxy::LIVE, Galaxy::TEST, Galaxy::ALL];
    assert_eq!((Galaxy::empty(), Galaxy::all()), (Galaxy::NONE, Galaxy::ALL));
    assert_eq!(Galaxy::LIVE | Galaxy::TEST, Galaxy::ALL);
    assert_eq!(Galaxy::ALL - Galaxy::TEST, Galaxy::LIVE);
    assert_eq!(!Galaxy::LIVE, Galaxy::TEST);
    for one in sets {
        // Bits that stand for no galaxy are refused, or left out.
        assert_eq!(Galaxy::from_bits(one.bits()), Some(one));
        assert_eq!(Galaxy::from_bits(one.bits() | 4), None);
        assert_eq!(Galaxy::from_bits_truncate(one.bits() | 0xf0), one);
        assert_eq!((!one).bits(), 3 - one.bits());
        assert_eq!(one.complement(), !one);
        assert_eq!(one.is_empty(), one.bits() == 0);
        assert_eq!(one.is_all(), one.bits() == 3);
        for other in sets {
            let (a, b) = (one.bits(), other.bits());
            assert_eq!((one | other).bits(), a | b);
            assert_eq!((one & other).bits(), a & b);
            assert_eq!((one ^ other).bits(), a ^ b);
            assert_eq!((one - other).bits(), a & !b);
            assert_eq!(one.union(other), one | other);
            assert_eq!(one.intersection(other), one & other);
            assert_eq!(one.symmetric_difference(other), one ^ other);
            assert_eq!(one.difference(other), one - other);
            assert_eq!(one.contains(other), a & b == b);
            assert_eq!(one.intersects(other), a & b != 0);
            let (mut put, mut taken, mut flipped) = (one, one, one);
            put.insert(other);
            taken.remove(other);
            flipped.toggle(other);
            assert_eq!((put, taken, flipped), (one | other, one - other, one ^ other));
            let (mut on, mut off) = (one, one);
            on.set(other, true);
            off.set(other, false);
            assert_eq!((on, off), (put, taken));
        }
    }
}

// The socket's turns.

#[test]
fn a_subscription_takes_its_turns() {
    const SECOND: u128 = 1_000_000_000;
    let mut network = Network::open("tcp://here:1", Some(120 * SECOND), 0);
    assert_eq!(network.showing(), Galaxy::LIVE);
    assert_eq!(network.start().as_deref(), Some("120s"));
    assert_eq!(network.start(), None);

    // A frame is handed over, with its moment, and ends the quiet.
    let at = Moment::new(7, 0).unwrap();
    match network.frame(Heard::Message(Some(vec![1, 2]), at), 100 * SECOND) {
        Turn::Hand(frame) => {
            assert_eq!(frame.received_at, at);
            assert_eq!(frame.bytes, vec![1, 2]);
        }
        other => panic!("{:?}", other),
    }
    // One that carries none is passed over, and ends the quiet all the same.
    assert!(matches!(network.frame(Heard::Message(None, at), 110 * SECOND), Turn::Again));
    assert!(matches!(network.frame(Heard::Nothing, 229 * SECOND), Turn::Again));

    // Too long a quiet replaces the connection, and so does a failure.
    match network.frame(Heard::Nothing, 231 * SECOND) {
        Turn::Replace(reason, None) => assert_eq!(reason, "nothing for 121s"),
        other => panic!("{:?}", other),
    }
    network.reconnect(231 * SECOND);
    assert!(matches!(network.frame(Heard::Nothing, 300 * SECOND), Turn::Again));
    match network.frame(Heard::Failed("broken".to_owned()), 301 * SECOND) {
        Turn::Replace(reason, Some(err)) => {
            assert_eq!(reason, "socket error: broken");
            assert_eq!(err.said(), "socket: broken");
        }
        other => panic!("{:?}", other),
    }

    // With no timeout the quiet is left alone.
    let mut patient = Network::open("tcp://here:1", None, 0).galaxy(Galaxy::ALL);
    assert_eq!(patient.showing(), Galaxy::ALL);
    assert_eq!(patient.start().as_deref(), Some("off"));
    assert!(matches!(patient.frame(Heard::Nothing, u128::MAX), Turn::Again));
}

// A spool, its directory held in memory.

/// A spool directory's segments and cursors, by file name.
struct Disk {
    files: BTreeMap<String, Vec<u8>>,
    cursors: BTreeMap<String, String>,
}

impl Disk {
    fn new() -> Disk {
        Disk { files: BTreeMap::new(), cursors: BTreeMap::new() }
    }

    fn held(&self) -> Vec<String> {
        segments(&self.files.keys().cloned().collect())
    }

    fn consumers(&self) -> Result<Vec<(String, Position)>, Fault> {
        let files: Vec<(String, Option<String>)> =
            self.cursors.iter().map(|(name, text)| (name.clone(), Some(text.clone()))).collect();
        cursors("spool/cursors", &files)
    }

    /// Writes a frame down, the clock at the moment it was received.
    fn record(&mut self, recorder: &mut Recorder, frame: &Frame) {
        let write = recorder.write(frame);
        if let Some(hour) = write.roll {
            let segment = self.files.entry(file_name(&hour)).or_default();
            let keep = recorder.roll(hour, segment);
            segment.truncate(keep);
            let held = self.held();
            let consumers = self.consumers().expect("the cursors");
            let pruning = recorder.prune(&held, &consumers, frame.received_at);
            for name in pruning.going {
                self.files.remove(&file_name(&name));
            }
        }
        let open = recorder.open.clone().expect("a segment is open");
        let bytes = write.record.expect("a record");
        self.files.get_mut(&file_name(&open)).expect("a segment").extend(bytes);
    }

    fn open(&self, start: Start, replay: Replay) -> Result<Spool, Fault> {
        let held = self.held();
        let cursor = match &start {
            Start::Cursor(name) => {
                read_cursor(name, self.cursors.get(name).map(|text| text.as_str()))?
            }
            _ => None,
        };
        let last = held.last().map(|name| kept(&self.files[&file_name(name)]) as u64).unwrap_or(0);
        Spool::open("spool", &held, start, replay, cursor, last)
    }

    /// The next frame, or nothing where the feed ends or would wait.
    fn next_frame(&self, spool: &mut Spool) -> (Option<Result<Frame, Error>>, bool) {
        let mut step = Step::Look;
        loop {
            let sight = match step {
                Step::Look => Sight::Tail(spool.resume().and_then(|at| {
                    let bytes = self.files.get(&file_name(&at.segment))?;
                    let from = (at.offset as usize).min(bytes.len());
                    let tail = &bytes[from..];
                    // No more than the record runs to.
                    let head = &tail[..extent(&[]).min(tail.len())];
                    Some(tail[..extent(head).min(tail.len())].to_vec())
                })),
                Step::List => Sight::Held(self.held()),
                Step::Wait => return (None, true),
                Step::End => return (None, false),
                Step::Hand(handed) => return (Some(handed), false),
            };
            step = spool.frame(sight);
        }
    }

    /// The next reading, or nothing where the feed ends or would wait.
    fn next(&self, spool: &mut Spool) -> Option<Result<Reading, Error>> {
        loop {
            let (next, _) = self.next_frame(spool);
            match reading(next, spool.showing(), parse) {
                Taken::Ended => return None,
                Taken::LetGo => {}
                Taken::Handed(read) => return Some(read),
            }
        }
    }

    fn all(&self, spool: &mut Spool) -> Vec<Reading> {
        let mut taken = Vec::new();
        while let Some(read) = self.next(spool) {
            taken.push(read.expect("a reading"));
        }
        taken
    }

    fn read(&self, start: Start) -> Vec<Reading> {
        self.all(&mut self.open(start, Replay::ToEnd).expect("a spool"))
    }

    fn commit(&mut self, spool: &Spool) {
        if let Some((name, at)) = spool.commit() {
            self.cursors.insert(name, write_cursor(&at));
        }
    }
}

fn at(hour: u32, second: u32) -> Moment {
    moment(Utc.with_ymd_and_hms(2026, 9, 19, hour, 0, second).unwrap())
}

fn recorded(schema: &str, received_at: Moment) -> Frame {
    Frame { received_at, bytes: zlib(schema, JUMP) }
}

/// What was recorded is what is read, in order and with its own clock
#[test]
fn a_recorded_hour_reads_back_as_itself() {
    let mut disk = Disk::new();
    let mut recorder = Recorder::open();
    let when: Vec<Moment> = (0..5).map(|n| at(17, n * 7)).collect();
    for &moment in &when {
        disk.record(&mut recorder, &recorded(JOURNAL, moment));
    }

    let read = disk.read(Start::Earliest);
    assert_eq!(read.len(), 5);
    assert_eq!(read.iter().map(|it| it.received_at).collect::<Vec<_>>(), when);
    assert!(read.iter().all(|it| it.envelope.live));
}

/// A record is twelve bytes of head and then the frame
#[test]
fn a_record_is_its_head_and_then_the_frame() {
    assert_eq!(RECEIVED, 4);
    assert_eq!(HEAD, 12);

    let mut disk = Disk::new();
    let mut recorder = Recorder::open();
    let frame = recorded(JOURNAL, at(17, 3));
    disk.record(&mut recorder, &frame);

    let bytes = &disk.files["2026091917.eddn"];
    assert_eq!(bytes.len(), HEAD + frame.bytes.len());
    assert_eq!(
        u32::from_le_bytes(bytes[0..4].try_into().expect("four")) as usize,
        frame.bytes.len(),
    );
    assert_eq!(
        i64::from_le_bytes(bytes[4..12].try_into().expect("eight")),
        frame.received_at.timestamp_nanos().expect("a moment"),
    );
    assert_eq!(&bytes[HEAD..], &frame.bytes[..]);
}

/// An hour is a segment, and a reader walks them in order
#[test]
fn the_hour_rolls_and_the_reader_follows_it() {
    let mut disk = Disk::new();
    let mut recorder = Recorder::open();
    for hour in [17u32, 17, 18, 19, 19] {
        disk.record(&mut recorder, &recorded(JOURNAL, at(hour, 0)));
    }

    assert_eq!(disk.held(), vec!["2026091917", "2026091918", "2026091919"]);
    assert_eq!(disk.read(Start::Earliest).len(), 5);

    // And `Since` opens the hour it names rather than the galaxy's.
    let since = disk.read(Start::Since(at(19, 0)));
    assert_eq!(since.len(), 2, "a since read the wrong hours");
    assert!(since.iter().all(|it| it.received_at == at(19, 0)));

    // And `Latest` is the end of what is held.
    assert!(disk.read(Start::Latest).is_empty());
}

/// A start at a moment skips what was received before it, and only until then
#[test]
fn a_start_at_a_moment_skips_what_came_before_it() {
    let mut disk = Disk::new();
    let mut recorder = Recorder::open();
    for (hour, second) in [(17, 10), (17, 20), (17, 30), (18, 5)] {
        disk.record(&mut recorder, &recorded(JOURNAL, at(hour, second)));
    }
    let since = disk.read(Start::Since(at(17, 20)));
    assert_eq!(
        since.iter().map(|it| it.received_at).collect::<Vec<_>>(),
        vec![at(17, 20), at(17, 30), at(18, 5)],
    );
    // Before everything held, everything; past it, nothing.
    assert_eq!(disk.read(Start::Since(at(1, 0))).len(), 4);
    assert!(disk.read(Start::Since(at(20, 0))).is_empty());
    // And of nothing held there is nothing.
    assert!(Disk::new().read(Start::Since(at(1, 0))).is_empty());
}

/// A following reader waits at the end and takes what is appended
#[test]
fn a_following_reader_takes_what_is_appended() {
    let mut disk = Disk::new();
    let mut recorder = Recorder::open();
    disk.record(&mut recorder, &recorded(JOURNAL, at(17, 0)));

    let mut feed = disk.open(Start::Earliest, Replay::Follow).expect("a spool");
    let first = disk.next(&mut feed).expect("the record already written").expect("a reading");
    assert_eq!(first.received_at, at(17, 0));
    // And then it waits, rather than answering the end of the file as the end
    // of the feed.
    let (none, waits) = disk.next_frame(&mut feed);
    assert!(none.is_none() && waits, "the feed ended where the records did");

    disk.record(&mut recorder, &recorded(JOURNAL, at(17, 1)));
    let appended = disk.next(&mut feed).expect("the appended record").expect("a reading");
    assert_eq!(appended.received_at, at(17, 1));

    // A reader opened on nothing takes what comes first.
    let mut empty = Disk::new();
    let mut early = empty.open(Start::Earliest, Replay::Follow).expect("a spool");
    assert!(empty.next_frame(&mut early).1);
    let mut recorder = Recorder::open();
    empty.record(&mut recorder, &recorded(JOURNAL, at(17, 2)));
    assert_eq!(empty.next(&mut early).unwrap().unwrap().received_at, at(17, 2));
}

/// A torn tail is not an error, and is not read twice either
#[test]
fn a_torn_tail_loses_only_the_partial_record() {
    let mut disk = Disk::new();
    let mut recorder = Recorder::open();
    for n in 0..3 {
        disk.record(&mut recorder, &recorded(JOURNAL, at(17, n)));
    }

    // The kill: the last record loses its final bytes.
    let segment = disk.files.get_mut("2026091917.eddn").expect("a segment");
    let whole = segment.len();
    segment.truncate(whole - 10);

    let read = disk.read(Start::Earliest);
    assert_eq!(read.len(), 2, "the torn record was handed over");

    // And a follower stops at the record boundary, not inside it.
    let mut spool = disk.open(Start::Earliest, Replay::ToEnd).expect("a spool");
    let taken = disk.all(&mut spool);
    assert_eq!(taken.len(), 2);
    let at_end = spool.resume().expect("a position");
    assert!(at_end.offset < whole as u64 - 10, "the position ran into the torn record");

    // A later segment finishes this one, torn tail and all.
    disk.record(&mut recorder, &recorded(JOURNAL, at(18, 0)));
    assert_eq!(disk.read(Start::Earliest).len(), 3);
}

/// A recorder started where another was killed loses the partial record alone
#[test]
fn a_restarted_recorder_loses_only_the_partial_record() {
    // One byte of a record is what the kill left, then all of it but one.
    let lost = encode(at(17, 9).timestamp_nanos().unwrap(), &recorded(JOURNAL, at(17, 9)).bytes);
    for left in [1, HEAD, lost.len() - 1] {
        let mut disk = Disk::new();
        disk.record(&mut Recorder::open(), &recorded(JOURNAL, at(17, 0)));
        let mut follower = disk.open(Start::Earliest, Replay::Follow).expect("a spool");
        assert_eq!(disk.next(&mut follower).unwrap().unwrap().received_at, at(17, 0));
        let boundary = follower.resume().expect("a position").offset;

        disk.files.get_mut("2026091917.eddn").unwrap().extend(&lost[..left]);
        assert!(disk.next_frame(&mut follower).1, "the torn record was handed over");
        // One opened now starts where the whole records end.
        let mut fresh = disk.open(Start::Latest, Replay::Follow).expect("a spool");
        assert_eq!(fresh.resume().expect("a position").offset, boundary);

        let mut again = Recorder::open();
        disk.record(&mut again, &recorded(JOURNAL, at(17, 10)));
        disk.record(&mut again, &recorded(JOURNAL, at(18, 0)));
        let read = disk.read(Start::Earliest);
        let received: Vec<Moment> = read.iter().map(|read| read.received_at).collect();
        assert_eq!(received, vec![at(17, 0), at(17, 10), at(18, 0)]);
        for reader in [&mut follower, &mut fresh] {
            assert_eq!(disk.next(reader).unwrap().unwrap().received_at, at(17, 10));
            assert_eq!(disk.next(reader).unwrap().unwrap().received_at, at(18, 0));
        }
    }
}

/// A segment is kept as far as its whole records run, and whole where a head
/// in it claims too much
#[test]
fn a_segment_is_kept_as_far_as_its_records_are_whole() {
    let one = encode(1, &vec![7; 5]);
    let two = [one.clone(), encode(2, &Vec::new())].concat();
    assert_eq!((whole(&[]), kept(&[])), (0, 0));
    assert_eq!((whole(&one), kept(&one)), (one.len(), one.len()));
    assert_eq!((whole(&two), kept(&two)), (two.len(), two.len()));
    for cut in 0..two.len() {
        let left = if cut < one.len() { 0 } else { one.len() };
        assert_eq!((whole(&two[..cut]), kept(&two[..cut])), (left, left), "{cut}");
    }
    let mut corrupt = one.clone();
    corrupt.extend((LARGEST + 1).to_le_bytes());
    corrupt.extend(0i64.to_le_bytes());
    assert_eq!((whole(&corrupt), kept(&corrupt)), (one.len(), corrupt.len()));
}

/// A frame no reader would take back is refused, and the rest goes on
#[test]
fn a_frame_past_the_largest_is_refused() {
    let mut disk = Disk::new();
    let mut recorder = Recorder::open();
    disk.record(&mut recorder, &recorded(JOURNAL, at(17, 0)));
    let huge = Frame { received_at: at(17, 1), bytes: vec![0; LARGEST as usize + 1] };
    let refused = recorder.write(&huge).record.expect_err("too large");
    assert_eq!(refused.kind, FaultKind::InvalidInput);
    assert_eq!(refused.message, "a frame past 1 MiB");
    // Which is nothing to stop over, where a failing disk is.
    assert!(goes_on(&Ok(())));
    assert!(goes_on(&Err(refused)));
    for kind in [FaultKind::NotFound, FaultKind::InvalidData, FaultKind::Other] {
        assert!(!goes_on(&Err(Fault { kind, message: "denied".to_owned() })));
    }
    let largest = Frame { received_at: at(17, 1), bytes: vec![0; LARGEST as usize] };
    assert!(recorder.write(&largest).record.is_ok());
    disk.record(&mut recorder, &recorded(JOURNAL, at(17, 2)));
    assert_eq!(disk.read(Start::Earliest).len(), 2);
}

/// A consumer that committed before anything was recorded comes back to all of
/// it
#[test]
fn a_cursor_committed_on_nothing_is_not_refused() {
    let mut disk = Disk::new();
    let spool = disk.open(Start::Cursor("early".to_owned()), Replay::ToEnd).expect("a spool");
    disk.commit(&spool);
    assert_eq!(disk.cursors["early"], ".eddn 0\n");
    let mut recorder = Recorder::open();
    for hour in [17, 18] {
        disk.record(&mut recorder, &recorded(JOURNAL, at(hour, 0)));
    }
    let mut back = disk.open(Start::Cursor("early".to_owned()), Replay::ToEnd).expect("not refused");
    let read = disk.all(&mut back);
    assert_eq!(read.len(), 2);
    assert_eq!(read[0].received_at, at(17, 0));
}

/// Two consumers, two cursors, and a kill replays rather than skips
#[test]
fn a_cursor_replays_the_tail_and_is_a_consumer_of_its_own() {
    let mut disk = Disk::new();
    let mut recorder = Recorder::open();
    for n in 0..4 {
        disk.record(&mut recorder, &recorded(JOURNAL, at(17, n)));
    }

    let mut db = disk.open(Start::Cursor("galos-db".into()), Replay::ToEnd).expect("a spool");
    // A consumer with no cursor follows rather than replaying.
    assert_eq!(disk.all(&mut db).len(), 0, "a fresh cursor replayed");

    // One consumer takes two and commits; the kill is the drop.
    let mut db = disk
        .open(Start::Earliest, Replay::ToEnd)
        .expect("a spool")
        .named("galos-db".to_owned());
    assert!(disk.next(&mut db).is_some());
    assert!(disk.next(&mut db).is_some());
    disk.commit(&db);
    drop(db);

    let back = disk.read(Start::Cursor("galos-db".into()));
    assert_eq!(back.len(), 2, "the committed prefix came round again");

    // The other consumer has its own position.
    let other = disk.read(Start::Cursor("galos-index".into()));
    assert_eq!(other.len(), 0, "a fresh consumer replayed the spool");
    let held = disk.consumers().expect("the cursors");
    assert_eq!(held.len(), 1);
    assert_eq!(held[0].0, "galos-db");
}

/// Test-galaxy frames are recorded and filtered on the way out
#[test]
fn a_test_frame_is_recorded_and_let_go_on_the_way_out() {
    let mut disk = Disk::new();
    let mut recorder = Recorder::open();
    disk.record(&mut recorder, &recorded(JOURNAL, at(17, 0)));
    disk.record(&mut recorder, &recorded(JOURNAL_TEST, at(17, 1)));

    assert_eq!(disk.read(Start::Earliest).len(), 1);
    let mut every =
        disk.open(Start::Earliest, Replay::ToEnd).expect("a spool").galaxy(Galaxy::ALL);
    let all = disk.all(&mut every);
    assert_eq!(all.len(), 2, "the test frame was not recorded");
    assert!(!all[1].envelope.live);
}

/// Retention takes whole segments, and says who is losing one
#[test]
fn retention_prunes_whole_segments_and_names_the_cursors() {
    let mut disk = Disk::new();
    let mut recorder = Recorder::open().retaining(3600 * 1_000_000_000);
    // Two hours the window has left behind, and then now -- the roll onto
    // which is what prunes.
    disk.record(&mut recorder, &recorded(JOURNAL, at(17, 0)));
    disk.record(&mut recorder, &recorded(JOURNAL, at(18, 0)));
    disk.cursors.insert(
        "galos-db".to_owned(),
        write_cursor(&Position { segment: "2026091917".into(), offset: 0 }),
    );
    let now = at(23, 0);
    let losing = recorder.prune(&disk.held(), &disk.consumers().expect("the cursors"), now).losing;
    assert_eq!(losing, vec![("galos-db".to_owned(), "2026091917".to_owned())]);
    disk.record(&mut recorder, &recorded(JOURNAL, now));

    let held = disk.held();
    assert!(
        !held.contains(&"2026091917".to_owned()) && !held.contains(&"2026091918".to_owned()),
        "an aged-out segment was kept: {held:?}",
    );
    assert_eq!(held.len(), 1, "the segment being written was pruned");

    // And the consumer whose cursor is now nowhere is told.
    let refused = disk
        .open(Start::Cursor("galos-db".into()), Replay::ToEnd)
        .expect_err("a pruned cursor should be refused");
    assert_eq!(refused.kind, FaultKind::NotFound);
    assert_eq!(
        refused.message,
        format!(
            "the spool no longer holds 2026091917.eddn, which is where this reader stopped; \
             the oldest it holds is {}.eddn",
            held[0],
        ),
    );
}

/// Nothing is pruned unasked, nor by a window longer than time
#[test]
fn a_window_past_counting_prunes_nothing() {
    let held = vec!["2026091917".to_owned()];
    let now = at(23, 0);
    assert!(Recorder::open().prune(&held, &Vec::new(), now).going.is_empty());
    let forever = Recorder::open().retaining(LONGEST_WINDOW + 1);
    assert!(forever.prune(&held, &Vec::new(), now).going.is_empty());
    // The hour itself counts as inside a window that begins with it.
    let six = Recorder::open().retaining(6 * 3600 * 1_000_000_000);
    assert!(six.prune(&held, &Vec::new(), now).going.is_empty());
    let less = Recorder::open().retaining(6 * 3600 * 1_000_000_000 - 1);
    assert_eq!(less.prune(&held, &Vec::new(), now).going, held);
}

/// A spool and a subscription answer the same bytes the same way
#[test]
fn a_spool_and_a_subscription_read_alike() {
    let at = |secs: i64| Moment::new(1_700_000_000 + secs, 0).expect("a moment");
    let test = "https://eddn.edcd.io/schemas/journal/1/test";
    let frames: Vec<Frame> = [JOURNAL, test, JOURNAL]
        .iter()
        .enumerate()
        .map(|(n, schema)| Frame { received_at: at(n as i64), bytes: zlib(schema, JUMP) })
        .collect();

    // Down the wire's road: frames in, readings out.
    let mut wire: Vec<Reading> = Vec::new();
    for frame in &frames {
        match reading(Some(Ok(frame.clone())), Galaxy::LIVE, parse) {
            Taken::Handed(read) => wire.push(read.expect("a reading")),
            Taken::LetGo => {}
            Taken::Ended => panic!("a frame ended the feed"),
        }
    }

    // And down the spool's: the same frames written to a segment and read
    // back.
    let mut disk = Disk::new();
    let mut recorder = Recorder::open();
    for frame in &frames {
        disk.record(&mut recorder, frame);
    }
    let spooled = disk.read(Start::Earliest);

    let said = |read: &[Reading]| {
        read.iter()
            .map(|it| (it.received_at, it.envelope.schema_ref.clone()))
            .collect::<Vec<_>>()
    };
    assert_eq!(said(&wire), said(&spooled));
    // Both let the test-galaxy frame go, and neither restamped what it kept.
    assert_eq!(said(&wire), vec![(at(0), JOURNAL.to_owned()), (at(2), JOURNAL.to_owned())]);
}

/// A head that claims too much stops the read where it is
#[test]
fn an_oversized_record_is_refused() {
    let mut disk = Disk::new();
    let mut bytes = (LARGEST + 1).to_le_bytes().to_vec();
    bytes.extend(0i64.to_le_bytes());
    disk.files.insert("2026091917.eddn".to_owned(), bytes);
    let mut spool = disk.open(Start::Earliest, Replay::ToEnd).expect("a spool");
    match disk.next(&mut spool) {
        Some(Err(err)) => assert_eq!(
            err.said(),
            "spool spool: 2026091917.eddn at 0: a record claiming 1048577 bytes",
        ),
        other => panic!("{:?}", other),
    }
    assert_eq!(spool.resume().expect("a position").offset, 0);
}

/// What the file system says is handed over as the spool's error
#[test]
fn a_failing_file_is_reported() {
    let mut spool = Disk::new().open(Start::Latest, Replay::ToEnd).expect("a spool");
    let fault = Fault { kind: FaultKind::Other, message: "denied".to_owned() };
    match spool.frame(Sight::Failed(fault)) {
        Step::Hand(Err(err)) => assert_eq!(err.said(), "spool spool: denied"),
        other => panic!("{:?}", other),
    }
}

/// Records read back, and what is cut short is not there yet
#[test]
fn a_record_reads_back_whole_or_not_at_all() {
    for nanos in [i64::MIN, -1, 0, 1, 1_700_000_000_123_456_789, i64::MAX] {
        let bytes = vec![7u8; 300];
        let record = encode(nanos, &bytes);
        assert_eq!(extent(&record), record.len());
        match decode(&record) {
            Found::Whole(at, back) => assert_eq!((at, back), (nanos, bytes)),
            other => panic!("{:?}", other),
        }
        for cut in [0, 3, 11, 12, 311] {
            assert!(matches!(decode(&record[..cut]), Found::Torn));
        }
    }
    let empty = encode(5, &Vec::new());
    assert!(matches!(decode(&empty), Found::Whole(5, _)));
    assert!(matches!(decode(&encode(0, &vec![0; LARGEST as usize])), Found::Whole(0, _)));
    assert!(matches!(decode(&encode(0, &vec![0; LARGEST as usize + 1])), Found::Oversized(1_048_577)));
}

/// Segments are named for the hour, and only what is named so is one
#[test]
fn segments_are_named_for_the_hour() {
    assert_eq!(segment_name(at(17, 59)), "2026091917");
    assert_eq!(opened("2026091917"), Some(at(17, 0)));
    assert_eq!(opened("2026091924"), None);
    assert_eq!(opened("cursors"), None);
    // Only ten digits spell an hour, whatever a looser reading makes of them.
    for name in ["202609191", "20260919", "20260919170", "galos-db", "+026091917", "2026 91917", ""] {
        assert_eq!(opened(name), None, "{name}");
    }
    assert_eq!(file_name("2026091917"), "2026091917.eddn");
    let files: Vec<String> = ["2026091918.eddn", "notes.eddn", "2026091917.eddn", "2026091917.txt", "cursors"]
        .iter()
        .map(|name| name.to_string())
        .collect();
    assert_eq!(segments(&files), vec!["2026091917", "2026091918"]);
}

/// The end of nothing is the front of no segment
#[test]
fn the_end_of_what_is_recorded_is_where_a_follower_starts() {
    let nowhere = end(&Vec::new(), 9);
    assert_eq!((nowhere.segment.as_str(), nowhere.offset), ("", 0));
    let last = end(&vec!["2026091917".to_owned(), "2026091918".to_owned()], 9);
    assert_eq!((last.segment.as_str(), last.offset), ("2026091918", 9));
}

/// A cursor is a segment and an offset, and anything else is not one
#[test]
fn a_cursor_reads_back_or_is_refused() {
    let at = Position { segment: "2026091917".to_owned(), offset: 4096 };
    assert_eq!(write_cursor(&at), "2026091917.eddn 4096\n");
    let back = read_cursor("p", Some("2026091917.eddn 4096\n")).expect("a cursor").expect("one");
    assert_eq!((back.segment.as_str(), back.offset), ("2026091917", 4096));
    let bare = read_cursor("p", Some(" 2026091917\t7 ")).expect("a cursor").expect("one");
    assert_eq!((bare.segment.as_str(), bare.offset), ("2026091917", 7));
    assert!(matches!(read_cursor("p", None), Ok(None)));
    for text in ["", "2026091917", "2026091917 x", "2026091917 1 2", "2026091917 -1"] {
        let refused = read_cursor("cursors/db", Some(text)).expect_err("not a cursor");
        assert_eq!(refused.kind, FaultKind::InvalidData);
        assert_eq!(refused.message, format!("cursors/db: {text:?} is not a cursor"));
    }
    assert_eq!(scratch_name("galos-db"), ".galos-db.tmp");
}

/// Every consumer's position comes by name, and one spoilt file spoils them
#[test]
fn cursors_come_by_name() {
    let files = vec![
        ("b".to_owned(), Some("2026091918.eddn 2\n".to_owned())),
        ("gone".to_owned(), None),
        ("a".to_owned(), Some("2026091917.eddn 1\n".to_owned())),
    ];
    let held = cursors("dir", &files).expect("the cursors");
    let names: Vec<&str> = held.iter().map(|(name, _)| name.as_str()).collect();
    assert_eq!(names, vec!["a", "b"]);
    assert_eq!(held[0].1.offset, 1);

    let spoilt = vec![("bad".to_owned(), Some("what".to_owned()))];
    let refused = cursors("dir", &spoilt).expect_err("not a cursor");
    assert_eq!(refused.message, "dir/bad: \"what\" is not a cursor");

    // What goes on without it has the others, and what is wrong.
    let mut files = files;
    files.extend(spoilt);
    let (held, faults) = legible_cursors("dir", &files);
    let names: Vec<&str> = held.iter().map(|(name, _)| name.as_str()).collect();
    assert_eq!(names, vec!["a", "b"]);
    assert_eq!(faults.len(), 1);
    assert_eq!(faults[0].kind, FaultKind::InvalidData);
    assert_eq!(faults[0].message, "dir/bad: \"what\" is not a cursor");
}

// What the journal carries.

fn journal(message: &str) -> Event {
    match envelope("https://eddn.edcd.io/schemas/journal/1", message).message {
        Message::Journal(journal) => journal.entry.event,
        other => panic!("not a journal entry: {:?}", other),
    }
}

/// What an event under the journal schema names by number.
fn sighting(message: &str) -> Sighting {
    match envelope("https://eddn.edcd.io/schemas/journal/1", message).message {
        Message::Journal(journal) => journal.event,
        other => panic!("not a journal entry: {:?}", other),
    }
}

const STAR_SCAN: &str = r#"{
    "timestamp": "2026-08-08T12:00:00Z",
    "event": "Scan",
    "ScanType": "AutoScan",
    "StarSystem": "Sol",
    "StarPos": [0.0, 0.0, 0.0],
    "SystemAddress": 10477373803,
    "BodyName": "Sol",
    "BodyID": 0,
    "DistanceFromArrivalLS": 0.0,
    "StarType": "G",
    "Subclass": 2,
    "StellarMass": 0.945312,
    "Radius": 696650688.0,
    "AbsoluteMagnitude": 4.83,
    "Age_MY": 4600,
    "SurfaceTemperature": 5778.0,
    "Luminosity": "Va",
    "RotationPeriod": 2211840.0,
    "AxialTilt": 0.126537,
    "WasDiscovered": true,
    "WasMapped": false
}"#;

/// A star, which is most of what a scan of a system is
#[test]
fn a_star_scan_still_reads() {
    let event = journal(STAR_SCAN);

    let Event::Scan(scan) = event else { panic!("not a scan") };
    assert_eq!(scan.star_system, "Sol");
    assert!(matches!(scan.target, ScanTarget::Star(_)));
}

const BODY_SCAN: &str = r#"{
    "timestamp": "2026-08-08T12:00:00Z",
    "event": "Scan",
    "ScanType": "Detailed",
    "StarSystem": "Sol",
    "StarPos": [0.0, 0.0, 0.0],
    "SystemAddress": 10477373803,
    "BodyName": "Sol 4",
    "BodyID": 12,
    "Parents": [{"Star": 0}],
    "DistanceFromArrivalLS": 763.7,
    "TidalLock": false,
    "TerraformState": "Terraformable",
    "PlanetClass": "High metal content body",
    "Atmosphere": "thin carbon dioxide atmosphere",
    "AtmosphereType": "CarbonDioxide",
    "Volcanism": "",
    "MassEM": 0.107425,
    "Radius": 3382519.75,
    "SurfaceGravity": 3.740913,
    "SurfaceTemperature": 232.0,
    "SurfacePressure": 700.0,
    "Landable": true,
    "SemiMajorAxis": 227900000000.0,
    "Eccentricity": 0.0934,
    "OrbitalInclination": 1.85,
    "Periapsis": 286.5,
    "OrbitalPeriod": 59354294000.0,
    "AscendingNode": 49.5,
    "MeanAnomaly": 19.4,
    "RotationPeriod": 88642.0,
    "AxialTilt": 0.4396,
    "WasDiscovered": true,
    "WasMapped": true
}"#;

/// A planet, which is the other half of the same event
#[test]
fn a_body_scan_still_reads() {
    let event = journal(BODY_SCAN);

    let Event::Scan(scan) = event else { panic!("not a scan") };
    assert!(matches!(scan.target, ScanTarget::Body(_)));
}

const DOCKED: &str = r#"{
    "timestamp": "2026-08-08T12:00:00Z",
    "event": "Docked",
    "StarSystem": "Sol",
    "StarPos": [0.0, 0.0, 0.0],
    "SystemAddress": 10477373803,
    "StationName": "Abraham Lincoln",
    "StationType": "Orbis",
    "MarketID": 128016384,
    "StationFaction": {"Name": "Mother Gaia"},
    "StationGovernment": "$government_Democracy;",
    "StationAllegiance": "Federation",
    "StationServices": ["dock", "refuel", "shipyard"],
    "StationEconomies": [
        {"Name": "$economy_Service;", "Proportion": 1.0}
    ],
    "DistFromStarLS": 498.4
}"#;

#[test]
fn docking_still_reads() {
    let event = journal(DOCKED);

    let Event::Docked(docked) = event else { panic!("not a dock") };
    assert_eq!(docked.station.name, "Abraham Lincoln");
    assert_eq!(docked.system_name, "Sol");
}

#[test]
fn a_jump_still_reads() {
    let event = journal(
        r#"{
            "timestamp": "2026-08-08T12:00:00Z",
            "event": "FSDJump",
            "StarSystem": "Sol",
            "StarPos": [0.0, 0.0, 0.0],
            "SystemAddress": 10477373803,
            "SystemAllegiance": "Federation",
            "SystemEconomy": "$economy_Refinery;",
            "SystemSecondEconomy": "$economy_Service;",
            "SystemGovernment": "$government_Democracy;",
            "SystemSecurity": "$SYSTEM_SECURITY_high;",
            "Population": 22780919531,
            "SystemFaction": {"Name": "Mother Gaia"}
        }"#,
    );

    let Event::FsdJump(jump) = event else { panic!("not a jump") };
    assert_eq!(jump.system.name, "Sol");
    assert_eq!(jump.system.population, Some(22780919531));
}

const LOCATION: &str = r#"{
    "timestamp": "2026-08-08T12:00:00Z",
    "event": "Location",
    "StarSystem": "Sol",
    "StarPos": [0.0, 0.0, 0.0],
    "SystemAddress": 10477373803,
    "SystemAllegiance": "Federation",
    "SystemEconomy": "$economy_Refinery;",
    "SystemGovernment": "$government_Democracy;",
    "SystemSecurity": "$SYSTEM_SECURITY_high;",
    "Population": 22780919531,
    "Docked": true,
    "StationName": "Abraham Lincoln",
    "StationType": "Orbis",
    "MarketID": 128016384
}"#;

#[test]
fn arriving_somewhere_still_reads() {
    let event = journal(LOCATION);

    let Event::Location(location) = event else { panic!("not a location") };
    assert!(location.docked);
    assert_eq!(location.station.as_ref().map(|s| s.name.as_str()), Some("Abraham Lincoln"));
}

const BARYCENTRE: &str = r#"{
    "timestamp": "2026-08-08T12:00:00Z",
    "event": "ScanBaryCentre",
    "StarSystem": "Sol",
    "StarPos": [0.0, 0.0, 0.0],
    "SystemAddress": 10477373803,
    "BodyID": 31,
    "SemiMajorAxis": 2216000000.0,
    "Eccentricity": 0.0022,
    "OrbitalInclination": 112.8,
    "Periapsis": 34.9,
    "OrbitalPeriod": 551614000.0,
    "AscendingNode": -132.9,
    "MeanAnomaly": 45.2
}"#;

/// Its own schema, and the payload is a journal event all the same
#[test]
fn a_barycenter_still_reads() {
    let message = envelope("https://eddn.edcd.io/schemas/scanbarycentre/1", BARYCENTRE).message;

    let Message::Journal(journal) = message else { panic!("not a journal entry") };
    let Event::ScanBaryCentre(scan) = journal.entry.event else { panic!("not a barycenter") };
    assert_eq!(scan.body_id, 31);
    assert!(scan.orbit.is_some());
}

#[test]
fn a_nav_route_still_reads() {
    let message = envelope(
        "https://eddn.edcd.io/schemas/navroute/1",
        r#"{
            "timestamp": "2026-08-08T12:00:00Z",
            "event": "NavRoute",
            "Route": [
                {
                    "StarSystem": "Sol",
                    "SystemAddress": 10477373803,
                    "StarPos": [0.0, 0.0, 0.0],
                    "StarClass": "G"
                },
                {
                    "StarSystem": "Alpha Centauri",
                    "SystemAddress": 113718121307,
                    "StarPos": [3.03, -0.09, 3.15],
                    "StarClass": "G"
                }
            ]
        }"#,
    )
    .message;

    let Message::Journal(journal) = message else { panic!("not a journal entry") };
    assert!(matches!(journal.entry.event, Event::NavRoute(_)));
    assert_eq!(journal.route, vec!["Sol", "Alpha Centauri"]);
    assert_eq!(journal.label, "NavRoute");
}

#[test]
fn a_commodity_market_still_reads() {
    let message = envelope(
        "https://eddn.edcd.io/schemas/commodity/3",
        r#"{
            "timestamp": "2026-08-08T12:00:00Z",
            "systemName": "Sol",
            "stationName": "Abraham Lincoln",
            "marketId": 128016384,
            "stationType": "Orbis",
            "economies": [{"name": "Service", "proportion": 1.0}],
            "prohibited": ["Slaves"],
            "commodities": [
                {
                    "name": "gold",
                    "meanPrice": 9411,
                    "buyPrice": 0,
                    "sellPrice": 9432,
                    "demand": 1148,
                    "demandBracket": 2,
                    "stock": 0,
                    "stockBracket": 0
                }
            ]
        }"#,
    )
    .message;

    let Message::Commodity(listing) = message else { panic!("not a market") };
    assert_eq!(listing.entry.event.station_name, "Abraham Lincoln");
    assert_eq!(listing.entry.event.commodities.len(), 1);
    assert_eq!(listing.market_id, Some(128016384));
}

#[test]
fn a_docking_permission_reads_with_only_what_the_schema_requires() {
    let message = envelope(
        "https://eddn.edcd.io/schemas/dockinggranted/1",
        r#"{
            "timestamp": "2026-08-08T12:00:00Z",
            "event": "DockingGranted",
            "MarketID": 128016384,
            "StationName": "Abraham Lincoln"
        }"#,
    )
    .message;

    let Message::Journal(journal) = message else { panic!("not a journal entry") };
    let Event::DockingGranted(granted) = journal.entry.event else {
        panic!("not a docking permission")
    };

    assert_eq!(granted.market_id, 128016384);
    // Both optional in the schema, and absent here.
    assert_eq!(granted.station_type, None);
    assert_eq!(granted.landing_pad, None);
}

#[test]
fn a_docking_refusal_reads_and_says_why() {
    let message = envelope(
        "https://eddn.edcd.io/schemas/dockingdenied/1",
        r#"{
            "timestamp": "2026-08-08T12:00:00Z",
            "event": "DockingDenied",
            "MarketID": 128016384,
            "StationName": "Abraham Lincoln",
            "StationType": "Orbis",
            "Reason": "NoSpace"
        }"#,
    )
    .message;

    let Message::Journal(journal) = message else { panic!("not a journal entry") };
    let Event::DockingDenied(denied) = journal.entry.event else {
        panic!("not a docking refusal")
    };

    assert_eq!(denied.market_id, 128016384);
    assert_eq!(denied.station_type.as_deref(), Some("Orbis"));
}

/// What each event names by number is read off the event itself
#[test]
fn an_event_gives_up_what_it_names_by_number() {
    const SOL: i64 = 10477373803;
    assert_eq!(sighting(JUMP), Sighting::FsdJump(SOL));
    assert_eq!(sighting(STAR_SCAN), Sighting::Scan(SOL, 0));
    assert_eq!(sighting(BODY_SCAN), Sighting::Scan(SOL, 12));
    assert_eq!(sighting(DOCKED), Sighting::Docked(SOL, Some(128016384)));
    assert_eq!(sighting(LOCATION), Sighting::Location(SOL, None, Some(128016384)));
    assert_eq!(sighting(BARYCENTRE), Sighting::ScanBaryCentre(SOL, 31));
    assert_eq!(
        sighting(
            r#"{
                "timestamp": "2026-08-08T12:00:00Z",
                "event": "CarrierJump",
                "StarSystem": "Sol",
                "SystemAddress": 7,
                "Docked": true,
                "StationName": "K7Q-BQL",
                "StationType": "FleetCarrier",
                "MarketID": 9
            }"#,
        ),
        Sighting::CarrierJump(7, None, Some(9)),
    );
    assert_eq!(
        sighting(
            r#"{
                "timestamp": "2026-08-08T12:00:00Z",
                "event": "SAASignalsFound",
                "BodyName": "Sol 3",
                "SystemAddress": 7,
                "BodyID": 3,
                "Signals": []
            }"#,
        ),
        Sighting::SAASignalsFound(7, 3),
    );
    assert_eq!(
        sighting(
            r#"{
                "timestamp": "2026-08-08T12:00:00Z",
                "event": "FSSBodySignals",
                "BodyName": "Sol 3",
                "BodyID": 3,
                "SystemAddress": 7,
                "Signals": []
            }"#,
        ),
        Sighting::FssBodySignals(7, 3),
    );
    assert_eq!(
        sighting(
            r#"{
                "timestamp": "2026-08-08T12:00:00Z",
                "event": "ApproachSettlement",
                "Name": "Camp",
                "MarketID": 5,
                "SystemAddress": 7,
                "BodyID": 3,
                "BodyName": "Sol 3",
                "Latitude": 0.0,
                "Longitude": 0.0,
                "StarSystem": "Sol",
                "StarPos": [0.0, 0.0, 0.0]
            }"#,
        ),
        Sighting::ApproachSettlement(7, 3, Some(5)),
    );
    assert_eq!(
        sighting(
            r#"{
                "timestamp": "2026-08-08T12:00:00Z",
                "event": "FSSDiscoveryScan",
                "SystemName": "Sol",
                "SystemAddress": 1234,
                "BodyCount": 5,
                "NonBodyCount": 2
            }"#,
        ),
        Sighting::Other,
    );
}
