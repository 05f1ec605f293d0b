//! Payloads: what a message holds, placed by the schema it was sent under.

use crate::error::Failure;
use crate::journal::{
    arrival_of, black_market_of, commodity_of, event_rendered, journal_of, outfitting_of,
    read_black_market, read_commodity, read_outfitting, read_shipyard, shipyard_of, visit_of,
    FailureView, Journal, Listing, Sighting,
};
use crate::json::{
    field, has_any_text_under, has_text_under, json_of, keys_of, text_under,
    the_first_key_with_a_text_is_read, Json,
};
use crate::moment::{moment_spelled, read_moment, Moment};
use crate::names::name_of;
use crate::text::{same, texts};
use elite_journal::entry::market::{BlackMarket, Outfitting, Shipyard};
use elite_journal::entry::Market;
use vstd::prelude::*;

verus! {

/// Payload of the message containing the parsed data
///
/// Which of these a message becomes is decided by the `$schemaRef` above it
/// rather than by trying each in turn. Most of the schemas carry a journal
/// event and so arrive as [`Message::Journal`]; what separates them is the
/// event inside. The rest are their own shapes and get their own variants.
#[derive(Debug)]
pub enum Message {
    Journal(Journal),
    Commodity(Listing<Market>),
    Outfitting(Listing<Outfitting>),
    Shipyard(Listing<Shipyard>),
    BlackMarket(Listing<BlackMarket>),
    /// A schema this crate does not read yet
    ///
    /// Kept as JSON rather than dropped, so that what is going unread can be
    /// seen by whoever is looking.
    Unmodeled(serde_json::Value),
}

/// The kinds of message there are
#[derive(Clone, Copy, Debug, PartialEq, Eq, Structural)]
pub enum Kind {
    Journal,
    Commodity,
    Outfitting,
    Shipyard,
    BlackMarket,
    Unmodeled,
}

/// The schemas whose payload is a journal entry
///
/// All of them carry an `event`, so one type reads them all and the variant
/// it lands on is chosen by that event rather than by the schema.
pub open spec fn is_journal_schema(name: Seq<char>) -> bool {
    ||| name == "journal"@
    ||| name == "approachsettlement"@
    ||| name == "codexentry"@
    ||| name == "dockingdenied"@
    ||| name == "dockinggranted"@
    ||| name == "fssallbodiesfound"@
    ||| name == "fssbodysignals"@
    ||| name == "fssdiscoveryscan"@
    ||| name == "fsssignaldiscovered"@
    ||| name == "navbeaconscan"@
    ||| name == "navroute"@
    ||| name == "scanbarycentre"@
}

/// The kind of message a schema's payload is, and unmodeled where there is no
/// schema or not one that is read.
pub open spec fn kind_of(name: Option<Seq<char>>) -> Kind {
    match name {
        None => Kind::Unmodeled,
        Some(name) => if is_journal_schema(name) {
            Kind::Journal
        } else if name == "commodity"@ {
            Kind::Commodity
        } else if name == "outfitting"@ {
            Kind::Outfitting
        } else if name == "shipyard"@ {
            Kind::Shipyard
        } else if name == "blackmarket"@ {
            Kind::BlackMarket
        } else {
            Kind::Unmodeled
        },
    }
}

/// Why a payload would not read as the kind it is, where it would not.
pub open spec fn refusal(kind: Kind, json: Json) -> Option<FailureView> {
    match kind {
        Kind::Journal => match journal_of(json) {
            Ok(_) => None,
            Err(failure) => Some(failure),
        },
        Kind::Commodity => match commodity_of(json) {
            Ok(_) => None,
            Err(failure) => Some(failure),
        },
        Kind::Outfitting => match outfitting_of(json) {
            Ok(_) => None,
            Err(failure) => Some(failure),
        },
        Kind::Shipyard => match shipyard_of(json) {
            Ok(_) => None,
            Err(failure) => Some(failure),
        },
        Kind::BlackMarket => match black_market_of(json) {
            Ok(_) => None,
            Err(failure) => Some(failure),
        },
        Kind::Unmodeled => None,
    }
}

/// Whether a schema's payload is a journal entry.
fn reads_as_journal(name: &str) -> (journal: bool)
    ensures
        journal == is_journal_schema(name@),
{
    same(name, "journal") || same(name, "approachsettlement") || same(name, "codexentry") || same(
        name,
        "dockingdenied",
    ) || same(name, "dockinggranted") || same(name, "fssallbodiesfound") || same(
        name,
        "fssbodysignals",
    ) || same(name, "fssdiscoveryscan") || same(name, "fsssignaldiscovered") || same(
        name,
        "navbeaconscan",
    ) || same(name, "navroute") || same(name, "scanbarycentre")
}

/// The kind of message a schema's payload is.
pub fn kind(name: Option<&str>) -> (kind: Kind)
    ensures
        kind == kind_of(
            match name {
                Some(name) => Some(name@),
                None => None,
            },
        ),
{
    let name = match name {
        Some(name) => name,
        None => {
            return Kind::Unmodeled;
        },
    };
    if reads_as_journal(name) {
        Kind::Journal
    } else if same(name, "commodity") {
        Kind::Commodity
    } else if same(name, "outfitting") {
        Kind::Outfitting
    } else if same(name, "shipyard") {
        Kind::Shipyard
    } else if same(name, "blackmarket") {
        Kind::BlackMarket
    } else {
        Kind::Unmodeled
    }
}

/// Whether this is what a payload of a schema reads as.
pub open spec fn reads_payload(
    name: Option<Seq<char>>,
    json: Json,
    read: Result<Message, Failure>,
) -> bool {
    let kind = kind_of(name);
    match read {
        Ok(message) => refusal(kind, json) is None && message.kind() == kind && message.reads(
            json,
        ),
        Err(failure) => refusal(kind, json) == Some(failure@),
    }
}

impl Message {
    /// The kind of message this is.
    pub open spec fn kind(self) -> Kind {
        match self {
            Message::Journal(_) => Kind::Journal,
            Message::Commodity(_) => Kind::Commodity,
            Message::Outfitting(_) => Kind::Outfitting,
            Message::Shipyard(_) => Kind::Shipyard,
            Message::BlackMarket(_) => Kind::BlackMarket,
            Message::Unmodeled(_) => Kind::Unmodeled,
        }
    }

    /// Whether this is what a payload reads as.
    pub open spec fn reads(self, json: Json) -> bool {
        match self {
            Message::Journal(journal) => journal.reads(json),
            Message::Commodity(listing) => commodity_of(json) == Ok::<_, FailureView>(listing@),
            Message::Outfitting(listing) => outfitting_of(json) == Ok::<_, FailureView>(listing@),
            Message::Shipyard(listing) => shipyard_of(json) == Ok::<_, FailureView>(listing@),
            Message::BlackMarket(listing) => black_market_of(json) == Ok::<_, FailureView>(
                listing@,
            ),
            Message::Unmodeled(value) => json_of(value) == json,
        }
    }

    /// Read a payload as the schema naming it says it is
    ///
    /// Whether the schema was a test one makes no difference here. A payload
    /// sent under `journal/1/test` is shaped exactly like one sent under
    /// `journal/1` and is read as one; what is not the same is the galaxy it
    /// describes, which is the envelope's to say.
    pub fn read(name: Option<&str>, message: serde_json::Value) -> (read: Result<Message, Failure>)
        ensures
            reads_payload(
                match name {
                    Some(name) => Some(name@),
                    None => None,
                },
                json_of(message),
                read,
            ),
    {
        match kind(name) {
            Kind::Journal => match Journal::read(&message) {
                Ok(journal) => Ok(Message::Journal(journal)),
                Err(failure) => Err(failure),
            },
            Kind::Commodity => match read_commodity(&message) {
                Ok(listing) => Ok(Message::Commodity(listing)),
                Err(failure) => Err(failure),
            },
            Kind::Outfitting => match read_outfitting(&message) {
                Ok(listing) => Ok(Message::Outfitting(listing)),
                Err(failure) => Err(failure),
            },
            Kind::Shipyard => match read_shipyard(&message) {
                Ok(listing) => Ok(Message::Shipyard(listing)),
                Err(failure) => Err(failure),
            },
            Kind::BlackMarket => match read_black_market(&message) {
                Ok(listing) => Ok(Message::BlackMarket(listing)),
                Err(failure) => Err(failure),
            },
            Kind::Unmodeled => Ok(Message::Unmodeled(message)),
        }
    }

    /// When the payload says it was written.
    pub open spec fn written_at(self) -> Option<(int, int)> {
        match self {
            Message::Journal(journal) => Some(journal.timestamp@),
            Message::Commodity(listing) => Some(listing.timestamp@),
            Message::Outfitting(listing) => Some(listing.timestamp@),
            Message::Shipyard(listing) => Some(listing.timestamp@),
            Message::BlackMarket(listing) => Some(listing.timestamp@),
            Message::Unmodeled(value) => match text_under(json_of(value), seq!["timestamp"@]) {
                Some(text) => moment_spelled(text),
                None => None,
            },
        }
    }

    /// The in-game moment the payload carries, where it carries one
    ///
    /// Every EDDN payload opens with a `timestamp`: when the game wrote the
    /// event, as against the header's, when EDDN received it. The typed
    /// variants read it off their entry; an unmodeled one is still raw JSON, so
    /// it is read from the `timestamp` key there. [`None`] only where that key
    /// is missing or unparseable.
    pub fn timestamp(&self) -> (at: Option<Moment>)
        ensures
            match at {
                Some(at) => self.written_at() == Some(at@),
                None => self.written_at() is None,
            },
    {
        match self {
            Message::Journal(journal) => Some(journal.timestamp),
            Message::Commodity(listing) => Some(listing.timestamp),
            Message::Outfitting(listing) => Some(listing.timestamp),
            Message::Shipyard(listing) => Some(listing.timestamp),
            Message::BlackMarket(listing) => Some(listing.timestamp),
            Message::Unmodeled(value) => {
                let keys: Vec<&'static str> = vec!["timestamp"];
                assert(keys_of(keys@) == seq!["timestamp"@]);
                match field(value, &keys) {
                    Some(text) => read_moment(text.as_str()),
                    None => None,
                }
            },
        }
    }
}

/// Each schema that is read is read as its own kind, the twelve that carry a
/// journal event as journal entries; any other schema, and none, is kept unread.
pub proof fn a_schema_is_read_as_its_kind(name: Seq<char>)
    ensures
        kind_of(Some("journal"@)) == Kind::Journal,
        kind_of(Some("approachsettlement"@)) == Kind::Journal,
        kind_of(Some("codexentry"@)) == Kind::Journal,
        kind_of(Some("dockingdenied"@)) == Kind::Journal,
        kind_of(Some("dockinggranted"@)) == Kind::Journal,
        kind_of(Some("fssallbodiesfound"@)) == Kind::Journal,
        kind_of(Some("fssbodysignals"@)) == Kind::Journal,
        kind_of(Some("fssdiscoveryscan"@)) == Kind::Journal,
        kind_of(Some("fsssignaldiscovered"@)) == Kind::Journal,
        kind_of(Some("navbeaconscan"@)) == Kind::Journal,
        kind_of(Some("navroute"@)) == Kind::Journal,
        kind_of(Some("scanbarycentre"@)) == Kind::Journal,
        kind_of(Some("commodity"@)) == Kind::Commodity,
        kind_of(Some("outfitting"@)) == Kind::Outfitting,
        kind_of(Some("shipyard"@)) == Kind::Shipyard,
        kind_of(Some("blackmarket"@)) == Kind::BlackMarket,
        name != "journal"@
            && name != "approachsettlement"@
            && name != "codexentry"@
            && name != "dockingdenied"@
            && name != "dockinggranted"@
            && name != "fssallbodiesfound"@
            && name != "fssbodysignals"@
            && name != "fssdiscoveryscan"@
            && name != "fsssignaldiscovered"@
            && name != "navbeaconscan"@
            && name != "navroute"@
            && name != "scanbarycentre"@
            && name != "commodity"@
            && name != "outfitting"@
            && name != "shipyard"@
            && name != "blackmarket"@
            ==> kind_of(Some(name)) == Kind::Unmodeled,
        kind_of(None) == Kind::Unmodeled,
{
    reveal_strlit("journal");
    reveal_strlit("approachsettlement");
    reveal_strlit("codexentry");
    reveal_strlit("dockingdenied");
    reveal_strlit("dockinggranted");
    reveal_strlit("fssallbodiesfound");
    reveal_strlit("fssbodysignals");
    reveal_strlit("fssdiscoveryscan");
    reveal_strlit("fsssignaldiscovered");
    reveal_strlit("navbeaconscan");
    reveal_strlit("navroute");
    reveal_strlit("scanbarycentre");
    reveal_strlit("commodity");
    reveal_strlit("outfitting");
    reveal_strlit("shipyard");
    reveal_strlit("blackmarket");
    assert("journal"@.len() == 7);
    assert("approachsettlement"@.len() == 18);
    assert("codexentry"@.len() == 10);
    assert("dockingdenied"@.len() == 13);
    assert("dockinggranted"@.len() == 14);
    assert("fssallbodiesfound"@.len() == 17);
    assert("fssbodysignals"@.len() == 14);
    assert("fssdiscoveryscan"@.len() == 16);
    assert("fsssignaldiscovered"@.len() == 19);
    assert("navbeaconscan"@.len() == 13);
    assert("navroute"@.len() == 8);
    assert("scanbarycentre"@.len() == 14);
    assert("commodity"@.len() == 9);
    assert("outfitting"@.len() == 10);
    assert("shipyard"@.len() == 8);
    assert("blackmarket"@.len() == 11);
    assert("outfitting"@[0] == 'o' && "codexentry"@[0] == 'c');
    assert("shipyard"@[0] == 's' && "navroute"@[0] == 'n');
}

/// A payload is refused exactly where it will not read as its kind, with the
/// reason it would not; what is kept unread is never refused.
pub proof fn a_payload_is_refused_where_it_will_not_read(json: Json)
    ensures
        journal_of(json) is Ok <==> refusal(Kind::Journal, json) is None,
        commodity_of(json) is Ok <==> refusal(Kind::Commodity, json) is None,
        outfitting_of(json) is Ok <==> refusal(Kind::Outfitting, json) is None,
        shipyard_of(json) is Ok <==> refusal(Kind::Shipyard, json) is None,
        black_market_of(json) is Ok <==> refusal(Kind::BlackMarket, json) is None,
        refusal(Kind::Unmodeled, json) is None,
        journal_of(json) is Err ==> refusal(Kind::Journal, json) == Some(journal_of(json)->Err_0),
        commodity_of(json) is Err ==> refusal(Kind::Commodity, json) == Some(
            commodity_of(json)->Err_0,
        ),
        outfitting_of(json) is Err ==> refusal(Kind::Outfitting, json) == Some(
            outfitting_of(json)->Err_0,
        ),
        shipyard_of(json) is Err ==> refusal(Kind::Shipyard, json) == Some(
            shipyard_of(json)->Err_0,
        ),
        black_market_of(json) is Err ==> refusal(Kind::BlackMarket, json) == Some(
            black_market_of(json)->Err_0,
        ),
{
}

/// What a payload reads as carries the whole of what was read: the entry, when
/// it was written, and for a journal entry its event by name, what it names by
/// number and the stops of its route; for a market the station it is of.
pub proof fn a_payload_is_carried_whole(message: Message, json: Json)
    requires
        message.reads(json),
    ensures
        message matches Message::Journal(journal) ==> {
            &&& journal_of(json) is Ok
            &&& journal.entry == journal_of(json)->Ok_0.entry
            &&& message.written_at() == Some(journal_of(json)->Ok_0.timestamp)
            &&& texts(journal.route@) == journal_of(json)->Ok_0.route
            &&& journal.label@ == name_of(event_rendered(journal.entry))
            &&& arrival_of(journal.entry) != Sighting::Other ==> journal.event == arrival_of(
                journal.entry,
            )
            &&& arrival_of(journal.entry) == Sighting::Other ==> journal.event == visit_of(
                journal.entry,
            )
        },
        message matches Message::Commodity(listing) ==> commodity_of(json) is Ok && listing@
            == commodity_of(json)->Ok_0 && message.written_at() == Some(
            commodity_of(json)->Ok_0.timestamp,
        ),
        message matches Message::Outfitting(listing) ==> outfitting_of(json) is Ok && listing@
            == outfitting_of(json)->Ok_0 && message.written_at() == Some(
            outfitting_of(json)->Ok_0.timestamp,
        ),
        message matches Message::Shipyard(listing) ==> shipyard_of(json) is Ok && listing@
            == shipyard_of(json)->Ok_0 && message.written_at() == Some(
            shipyard_of(json)->Ok_0.timestamp,
        ),
        message matches Message::BlackMarket(listing) ==> black_market_of(json) is Ok && listing@
            == black_market_of(json)->Ok_0 && message.written_at() == Some(
            black_market_of(json)->Ok_0.timestamp,
        ),
        message matches Message::Unmodeled(value) ==> json_of(value) == json,
{
}

/// A payload that is kept unread was written when its `timestamp` says, and
/// says nothing of it where that is not a text.
pub proof fn an_unread_payload_says_when_it_was_written(value: serde_json::Value, text: Seq<char>)
    ensures
        has_text_under(json_of(value), "timestamp"@, text) ==> Message::Unmodeled(
            value,
        ).written_at() == moment_spelled(text),
        !has_any_text_under(json_of(value), "timestamp"@) ==> Message::Unmodeled(
            value,
        ).written_at() is None,
{
    let keys = seq!["timestamp"@];
    the_first_key_with_a_text_is_read(json_of(value), keys, 0);
    if !has_any_text_under(json_of(value), keys[0]) {
        the_first_key_with_a_text_is_read(json_of(value), keys, 1);
    }
}

/// A payload reads as the kind its schema names exactly where it will: any that
/// will is kept whole, and any that will not is answered with why it would not.
/// A payload of no schema that is read is always kept.
pub proof fn a_payload_reads_as_its_schema_says(
    name: Option<Seq<char>>,
    json: Json,
    read: Result<Message, Failure>,
)
    requires
        reads_payload(name, json, read),
    ensures
        read is Ok ==> read->Ok_0.kind() == kind_of(name) && read->Ok_0.reads(json),
        kind_of(name) == Kind::Journal ==> (read is Ok <==> journal_of(json) is Ok),
        kind_of(name) == Kind::Commodity ==> (read is Ok <==> commodity_of(json) is Ok),
        kind_of(name) == Kind::Outfitting ==> (read is Ok <==> outfitting_of(json) is Ok),
        kind_of(name) == Kind::Shipyard ==> (read is Ok <==> shipyard_of(json) is Ok),
        kind_of(name) == Kind::BlackMarket ==> (read is Ok <==> black_market_of(json) is Ok),
        kind_of(name) == Kind::Unmodeled ==> read is Ok,
        kind_of(name) == Kind::Journal && read is Err ==> read->Err_0@ == journal_of(json)->Err_0,
{
}

} // verus!
