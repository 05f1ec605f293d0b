//! The whole of one envelope, for the detail pane.

use crate::envelope::Envelope;
use crate::json::{json_of, pretty, pretty_json};
use crate::message::Message;
use crate::moment::{rfc3339, rfc3339_text};
use crate::text::{
    a_part_stands_in_the_whole, a_text_is_strung_last, chars_of, holds, stands_at, strung,
    what_a_part_holds_the_whole_holds,
};
use elite_journal::entry::market::{BlackMarket, Outfitting, Shipyard};
use elite_journal::entry::{Entry, Event, Market};
use vstd::prelude::*;
use vstd::string::StringExecFns;

verus! {

/// One line of the detail: what it says, and the value.
pub open spec fn line_of(label: Seq<char>, value: Seq<char>) -> Seq<char> {
    label + value + "\n"@
}

/// A line that is there only where its value is.
pub open spec fn maybe_line(label: Seq<char>, value: Option<String>) -> Seq<char> {
    match value {
        Some(value) => line_of(label, value@),
        None => Seq::empty(),
    }
}

/// Who sent an envelope, under what, and when, a line each, and an empty line
/// after them.
pub open spec fn about(envelope: Envelope) -> Seq<char> {
    line_of("schema:   "@, envelope.schema_ref@) + line_of(
        "live:     "@,
        if envelope.live {
            "true"@
        } else {
            "false"@
        },
    ) + maybe_line("system:   "@, envelope.star_system) + maybe_line(
        "version:  "@,
        envelope.version,
    ) + line_of(
        "software: "@,
        envelope.header.software_name@ + " "@ + envelope.header.software_version@,
    ) + line_of("uploader: "@, envelope.header.uploader_id@) + line_of(
        "gateway:  "@,
        rfc3339(envelope.header.gateway_timestamp@),
    ) + "\n"@
}

/// A text with four spaces before each of its lines, from its start where that
/// begins a line.
pub open spec fn indented(text: Seq<char>, starts: bool) -> Seq<char>
    decreases text.len(),
{
    if text.len() == 0 {
        Seq::empty()
    } else {
        (if starts {
            "    "@
        } else {
            Seq::empty()
        }) + seq![text[0]] + indented(text.skip(1), text[0] == '\n')
    }
}

/// A payload inside the variant it is read as, over several lines.
pub open spec fn inside(variant: Seq<char>, payload: Seq<char>) -> Seq<char> {
    variant + "(\n"@ + indented(payload + ",\n"@, true) + ")"@
}

/// The variant a payload is shown inside, and none for one kept as JSON.
pub open spec fn variant_of(message: Message) -> Option<Seq<char>> {
    match message {
        Message::Journal(_) => Some("Journal"@),
        Message::Commodity(_) => Some("Commodity"@),
        Message::Outfitting(_) => Some("Outfitting"@),
        Message::Shipyard(_) => Some("Shipyard"@),
        Message::BlackMarket(_) => Some("BlackMarket"@),
        Message::Unmodeled(_) => None,
    }
}

/// What a journal entry renders as, over several lines.
pub uninterp spec fn journal_rendered(entry: Entry<Event>) -> Seq<char>;

/// Renders a journal entry with the `Debug` that [`elite_journal`] derives
///
/// The contract names the text, which depends on the entry alone.
#[verifier::external_body]
fn render_journal(entry: &Entry<Event>) -> (text: String)
    ensures
        text@ == journal_rendered(*entry),
{
    format!("{:#?}", entry)
}

/// What a commodity market renders as, over several lines.
pub uninterp spec fn commodity_rendered(entry: Entry<Market>) -> Seq<char>;

/// Renders a commodity market with the `Debug` that [`elite_journal`] derives
///
/// The contract names the text, which depends on the entry alone.
#[verifier::external_body]
fn render_commodity(entry: &Entry<Market>) -> (text: String)
    ensures
        text@ == commodity_rendered(*entry),
{
    format!("{:#?}", entry)
}

/// What an outfitting listing renders as, over several lines.
pub uninterp spec fn outfitting_rendered(entry: Entry<Outfitting>) -> Seq<char>;

/// Renders an outfitting listing with the `Debug` that [`elite_journal`] derives
///
/// The contract names the text, which depends on the entry alone.
#[verifier::external_body]
fn render_outfitting(entry: &Entry<Outfitting>) -> (text: String)
    ensures
        text@ == outfitting_rendered(*entry),
{
    format!("{:#?}", entry)
}

/// What a shipyard listing renders as, over several lines.
pub uninterp spec fn shipyard_rendered(entry: Entry<Shipyard>) -> Seq<char>;

/// Renders a shipyard listing with the `Debug` that [`elite_journal`] derives
///
/// The contract names the text, which depends on the entry alone.
#[verifier::external_body]
fn render_shipyard(entry: &Entry<Shipyard>) -> (text: String)
    ensures
        text@ == shipyard_rendered(*entry),
{
    format!("{:#?}", entry)
}

/// What a black market entry renders as, over several lines.
pub uninterp spec fn black_market_rendered(entry: Entry<BlackMarket>) -> Seq<char>;

/// Renders a black market entry with the `Debug` that [`elite_journal`] derives
///
/// The contract names the text, which depends on the entry alone.
#[verifier::external_body]
fn render_black_market(entry: &Entry<BlackMarket>) -> (text: String)
    ensures
        text@ == black_market_rendered(*entry),
{
    format!("{:#?}", entry)
}

/// What a payload renders as: JSON for one this crate does not read, and its
/// entry otherwise.
pub open spec fn rendered(message: Message) -> Seq<char> {
    match message {
        Message::Journal(journal) => journal_rendered(journal.entry),
        Message::Commodity(listing) => commodity_rendered(listing.entry),
        Message::Outfitting(listing) => outfitting_rendered(listing.entry),
        Message::Shipyard(listing) => shipyard_rendered(listing.entry),
        Message::BlackMarket(listing) => black_market_rendered(listing.entry),
        Message::Unmodeled(value) => pretty_json(json_of(value)),
    }
}

/// An envelope in full, its payload rendered so.
pub open spec fn detailed(envelope: Envelope, payload: Seq<char>) -> Seq<char> {
    about(envelope) + match variant_of(envelope.message) {
        Some(variant) => inside(variant, payload),
        None => payload,
    } + "\n"@
}

/// Adds one line to a text.
fn push_line(text: &mut String, label: &str, value: &str)
    ensures
        final(text)@ == old(text)@ + line_of(label@, value@),
{
    text.append(label);
    text.append(value);
    text.append("\n");
    assert(text@ =~= old(text)@ + line_of(label@, value@));
}

/// Puts four spaces before each line of a text.
fn indent(text: &str) -> (out: String)
    ensures
        out@ == indented(text@, true),
{
    let chars = chars_of(text);
    let mut out = String::new();
    let mut starts = true;
    let mut i: usize = 0;
    assert(chars@.skip(0) =~= chars@);
    assert(out@ + indented(chars@, true) =~= indented(chars@, true));
    while i < chars.len()
        invariant
            i <= chars@.len(),
            chars@ == text@,
            indented(text@, true) == out@ + indented(text@.skip(i as int), starts),
        decreases chars@.len() - i,
    {
        let ghost before = out@;
        let ghost rest = text@.skip(i as int);
        assert(rest.skip(1) =~= text@.skip(i + 1));
        if starts {
            out.append("    ");
        }
        let c = chars[i];
        out.push(c);
        assert(out@ + indented(rest.skip(1), c == '\n') =~= before + indented(rest, starts));
        starts = c == '\n';
        i += 1;
    }
    assert(text@.skip(i as int) =~= Seq::<char>::empty());
    assert(out@ =~= indented(text@, true));
    out
}

/// The full rendering of an envelope for the detail pane, its payload given
///
/// `payload` is the payload's own rendering: JSON for a schema this crate does
/// not read, and its entry otherwise.
pub fn detail_with(envelope: &Envelope, payload: &str) -> (text: String)
    ensures
        text@ == detailed(*envelope, payload@),
{
    let mut text = String::new();
    assert(text@ =~= Seq::<char>::empty());
    push_line(&mut text, "schema:   ", envelope.schema_ref.as_str());
    push_line(&mut text, "live:     ", if envelope.live { "true" } else { "false" });
    if let Some(system) = &envelope.star_system {
        push_line(&mut text, "system:   ", system.as_str());
    }
    if let Some(version) = &envelope.version {
        push_line(&mut text, "version:  ", version.as_str());
    }
    let mut software = envelope.header.software_name.clone();
    software.append(" ");
    software.append(envelope.header.software_version.as_str());
    push_line(&mut text, "software: ", software.as_str());
    push_line(&mut text, "uploader: ", envelope.header.uploader_id.as_str());
    let gateway = rfc3339_text(envelope.header.gateway_timestamp);
    push_line(&mut text, "gateway:  ", gateway.as_str());
    text.append("\n");
    assert(text@ =~= about(*envelope));
    let variant: Option<&'static str> = match &envelope.message {
        Message::Journal(_) => Some("Journal"),
        Message::Commodity(_) => Some("Commodity"),
        Message::Outfitting(_) => Some("Outfitting"),
        Message::Shipyard(_) => Some("Shipyard"),
        Message::BlackMarket(_) => Some("BlackMarket"),
        Message::Unmodeled(_) => None,
    };
    match variant {
        Some(variant) => {
            let body = indent(payload.to_owned().concat(",\n").as_str());
            text.append(variant);
            text.append("(\n");
            text.append(body.as_str());
            text.append(")");
            assert(text@ =~= about(*envelope) + inside(variant@, payload@));
        },
        None => {
            text.append(payload);
        },
    }
    text.append("\n");
    text
}

/// The full rendering of an envelope for the detail pane
///
/// A payload this crate does not read is shown as JSON, and one that it does as
/// its entry.
pub fn detail(envelope: &Envelope) -> (text: String)
    ensures
        text@ == detailed(*envelope, rendered(envelope.message)),
{
    let payload = match &envelope.message {
        Message::Journal(journal) => render_journal(&journal.entry),
        Message::Commodity(listing) => render_commodity(&listing.entry),
        Message::Outfitting(listing) => render_outfitting(&listing.entry),
        Message::Shipyard(listing) => render_shipyard(&listing.entry),
        Message::BlackMarket(listing) => render_black_market(&listing.entry),
        Message::Unmodeled(value) => pretty(value),
    };
    detail_with(envelope, payload.as_str())
}

/// A text with more after it holds that, and all it held.
proof fn lemma_added(text: Seq<char>, more: Seq<char>, needle: Seq<char>)
    ensures
        holds(text + more, more),
        holds(text, needle) ==> holds(text + more, needle),
{
    let none = Seq::<char>::empty();
    assert(text + more =~= text + more + none);
    a_part_stands_in_the_whole(text, more, none);
    if holds(text, needle) {
        assert(text + more =~= none + text + more);
        what_a_part_holds_the_whole_holds(none, text, more, needle);
    }
}

/// A detail says of an envelope what it was sent under, whether it is live, the
/// system and the version where it says them, the software and its version, the
/// uploader and when the gateway had it, each on a line of its own; and its
/// payload after them.
pub proof fn a_detail_says_all_there_is(envelope: Envelope, payload: Seq<char>)
    ensures
        ({
            let text = detailed(envelope, payload);
            &&& holds(text, "schema:   "@ + envelope.schema_ref@ + "\n"@)
            &&& envelope.live ==> holds(text, "live:     true\n"@)
            &&& !envelope.live ==> holds(text, "live:     false\n"@)
            &&& envelope.star_system is Some ==> holds(
                text,
                "system:   "@ + envelope.star_system->0@ + "\n"@,
            )
            &&& envelope.version is Some ==> holds(
                text,
                "version:  "@ + envelope.version->0@ + "\n"@,
            )
            &&& holds(
                text,
                "software: "@ + (envelope.header.software_name@ + " "@
                    + envelope.header.software_version@) + "\n"@,
            )
            &&& holds(text, "uploader: "@ + envelope.header.uploader_id@ + "\n"@)
            &&& holds(
                text,
                "gateway:  "@ + rfc3339(envelope.header.gateway_timestamp@) + "\n"@,
            )
            &&& envelope.message is Unmodeled ==> (payload + "\n"@).is_suffix_of(text)
            &&& !(envelope.message is Unmodeled) ==> holds(text, indented(payload + ",\n"@, true))
        }),
{
    reveal_strlit("live:     true\n");
    reveal_strlit("live:     false\n");
    reveal_strlit("live:     ");
    reveal_strlit("true");
    reveal_strlit("false");
    reveal_strlit("\n");
    let said = if envelope.live {
        "true"@
    } else {
        "false"@
    };
    let schema = line_of("schema:   "@, envelope.schema_ref@);
    let live = line_of("live:     "@, said);
    assert(envelope.live ==> live =~= "live:     true\n"@);
    assert(!envelope.live ==> live =~= "live:     false\n"@);
    let system = maybe_line("system:   "@, envelope.star_system);
    let version = maybe_line("version:  "@, envelope.version);
    let software = line_of(
        "software: "@,
        envelope.header.software_name@ + " "@ + envelope.header.software_version@,
    );
    let uploader = line_of("uploader: "@, envelope.header.uploader_id@);
    let gateway = line_of("gateway:  "@, rfc3339(envelope.header.gateway_timestamp@));
    let shown = match variant_of(envelope.message) {
        Some(variant) => inside(variant, payload),
        None => payload,
    };
    let a = schema + live;
    let b = a + system;
    let c = b + version;
    let d = c + software;
    let e = d + uploader;
    let f = e + gateway;
    let about = f + "\n"@;
    let whole = about + shown;
    assert(holds(schema, schema)) by {
        assert(schema.subrange(0, schema.len() as int) =~= schema);
        assert(stands_at(schema, schema, 0));
    }
    lemma_added(schema, live, schema);
    lemma_added(a, system, schema);
    lemma_added(b, version, schema);
    lemma_added(c, software, schema);
    lemma_added(d, uploader, schema);
    lemma_added(e, gateway, schema);
    lemma_added(f, "\n"@, schema);
    lemma_added(about, shown, schema);
    lemma_added(whole, "\n"@, schema);
    lemma_added(schema, live, live);
    lemma_added(a, system, live);
    lemma_added(b, version, live);
    lemma_added(c, software, live);
    lemma_added(d, uploader, live);
    lemma_added(e, gateway, live);
    lemma_added(f, "\n"@, live);
    lemma_added(about, shown, live);
    lemma_added(whole, "\n"@, live);
    lemma_added(a, system, system);
    lemma_added(b, version, system);
    lemma_added(c, software, system);
    lemma_added(d, uploader, system);
    lemma_added(e, gateway, system);
    lemma_added(f, "\n"@, system);
    lemma_added(about, shown, system);
    lemma_added(whole, "\n"@, system);
    lemma_added(b, version, version);
    lemma_added(c, software, version);
    lemma_added(d, uploader, version);
    lemma_added(e, gateway, version);
    lemma_added(f, "\n"@, version);
    lemma_added(about, shown, version);
    lemma_added(whole, "\n"@, version);
    lemma_added(c, software, software);
    lemma_added(d, uploader, software);
    lemma_added(e, gateway, software);
    lemma_added(f, "\n"@, software);
    lemma_added(about, shown, software);
    lemma_added(whole, "\n"@, software);
    lemma_added(d, uploader, uploader);
    lemma_added(e, gateway, uploader);
    lemma_added(f, "\n"@, uploader);
    lemma_added(about, shown, uploader);
    lemma_added(whole, "\n"@, uploader);
    lemma_added(e, gateway, gateway);
    lemma_added(f, "\n"@, gateway);
    lemma_added(about, shown, gateway);
    lemma_added(whole, "\n"@, gateway);
    if let Some(variant) = variant_of(envelope.message) {
        let lines = indented(payload + ",\n"@, true);
        assert(shown =~= (variant + "(\n"@) + lines + ")"@);
        a_part_stands_in_the_whole(variant + "(\n"@, lines, ")"@);
        lemma_added(about, shown, shown);
        what_a_part_holds_the_whole_holds(about, shown, "\n"@, lines);
        assert(detailed(envelope, payload) =~= about + shown + "\n"@);
    } else {
        let text = detailed(envelope, payload);
        let end = payload + "\n"@;
        assert(text =~= about + end);
        assert(text.subrange(text.len() - end.len(), text.len() as int) =~= end);
    }
}

/// Each line of a payload is shown four spaces in: what stands on it is as it
/// was, and so are the lines after it.
pub proof fn a_payload_is_shown_four_spaces_in(line: Seq<char>, rest: Seq<char>)
    requires
        line.len() > 0,
        !line.contains('\n'),
    ensures
        indented(line, true) == "    "@ + line,
        indented(line + "\n"@ + rest, true) == "    "@ + line + "\n"@ + indented(rest, true),
{
    reveal_strlit("\n");
    lemma_indent_line(line.skip(1), rest);
    let all = line + "\n"@ + rest;
    assert(line[0] != '\n') by {
        assert(line.contains(line[0]));
    }
    assert(!line.skip(1).contains('\n')) by {
        if line.skip(1).contains('\n') {
            let i = choose|i: int| 0 <= i < line.skip(1).len() && line.skip(1)[i] == '\n';
            assert(line[i + 1] == '\n');
        }
    }
    assert(all.skip(1) =~= line.skip(1) + "\n"@ + rest);
    assert(seq![line[0]] + line.skip(1) =~= line);
    assert(indented(line, true) =~= "    "@ + line);
    assert(indented(all, true) =~= "    "@ + line + "\n"@ + indented(rest, true));
}

proof fn lemma_indent_line(line: Seq<char>, rest: Seq<char>)
    ensures
        !line.contains('\n') ==> indented(line, false) == line && indented(
            line + "\n"@ + rest,
            false,
        ) == line + "\n"@ + indented(rest, true),
    decreases line.len(),
{
    reveal_strlit("\n");
    let all = line + "\n"@ + rest;
    if !line.contains('\n') {
        if line.len() == 0 {
            assert(all[0] == '\n');
            assert(all.skip(1) =~= rest);
            assert(indented(all, false) =~= line + "\n"@ + indented(rest, true));
        } else {
            assert(line.contains(line[0]));
            if line.skip(1).contains('\n') {
                let i = choose|i: int| 0 <= i < line.skip(1).len() && line.skip(1)[i] == '\n';
                assert(line[i + 1] == '\n');
            }
            lemma_indent_line(line.skip(1), rest);
            assert(all.skip(1) =~= line.skip(1) + "\n"@ + rest);
            assert(seq![line[0]] + line.skip(1) =~= line);
            assert(indented(line, false) =~= line);
            assert(indented(all, false) =~= line + "\n"@ + indented(rest, true));
        }
    }
}

/// A payload is shown as what it is read as, inside the name of its kind, and
/// as its own JSON where it is kept unread.
pub proof fn a_payload_is_shown_as_its_kind(message: Message)
    ensures
        message is Journal ==> variant_of(message) == Some("Journal"@) && rendered(message)
            == journal_rendered(message->Journal_0.entry),
        message is Commodity ==> variant_of(message) == Some("Commodity"@) && rendered(message)
            == commodity_rendered(message->Commodity_0.entry),
        message is Outfitting ==> variant_of(message) == Some("Outfitting"@) && rendered(message)
            == outfitting_rendered(message->Outfitting_0.entry),
        message is Shipyard ==> variant_of(message) == Some("Shipyard"@) && rendered(message)
            == shipyard_rendered(message->Shipyard_0.entry),
        message is BlackMarket ==> variant_of(message) == Some("BlackMarket"@) && rendered(message)
            == black_market_rendered(message->BlackMarket_0.entry),
        message is Unmodeled ==> variant_of(message) is None && rendered(message) == pretty_json(
            json_of(message->Unmodeled_0),
        ),
{
}

/// A detail says nothing but its lines, an empty line after them and its
/// payload: there is no line for a system or a version it does not say, and a
/// payload that is read as its kind stands in brackets after the kind's name.
pub proof fn a_detail_says_nothing_else(envelope: Envelope, payload: Seq<char>)
    ensures
        ({
            let header = envelope.header;
            let sent = seq![
                "schema:   "@ + envelope.schema_ref@ + "\n"@,
                if envelope.live {
                    "live:     true\n"@
                } else {
                    "live:     false\n"@
                },
            ];
            let system = seq!["system:   "@ + envelope.star_system->0@ + "\n"@];
            let version = seq!["version:  "@ + envelope.version->0@ + "\n"@];
            let by = seq![
                "software: "@ + (header.software_name@ + " "@ + header.software_version@) + "\n"@,
                "uploader: "@ + header.uploader_id@ + "\n"@,
                "gateway:  "@ + rfc3339(header.gateway_timestamp@) + "\n"@,
                "\n"@,
            ];
            let lines = sent + if envelope.star_system is Some {
                system
            } else {
                Seq::empty()
            } + if envelope.version is Some {
                version
            } else {
                Seq::empty()
            } + by;
            let text = detailed(envelope, payload);
            &&& envelope.message is Unmodeled ==> text == strung(lines) + payload + "\n"@
            &&& !(envelope.message is Unmodeled) ==> text == strung(lines) + variant_of(
                envelope.message,
            )->0 + "(\n"@ + indented(payload + ",\n"@, true) + ")"@ + "\n"@
        }),
{
    reveal_strlit("live:     true\n");
    reveal_strlit("live:     false\n");
    reveal_strlit("live:     ");
    reveal_strlit("true");
    reveal_strlit("false");
    reveal_strlit("\n");
    let header = envelope.header;
    let schema = line_of("schema:   "@, envelope.schema_ref@);
    let live = if envelope.live {
        "live:     true\n"@
    } else {
        "live:     false\n"@
    };
    assert(live =~= line_of(
        "live:     "@,
        if envelope.live {
            "true"@
        } else {
            "false"@
        },
    ));
    let software = line_of(
        "software: "@,
        header.software_name@ + " "@ + header.software_version@,
    );
    let uploader = line_of("uploader: "@, header.uploader_id@);
    let gateway = line_of("gateway:  "@, rfc3339(header.gateway_timestamp@));
    let none = Seq::<Seq<char>>::empty();
    let sent = none.push(schema).push(live);
    a_text_is_strung_last(none, schema);
    a_text_is_strung_last(none.push(schema), live);
    assert(strung(sent) =~= schema + live);
    let placed = if let Some(system) = envelope.star_system {
        sent.push(line_of("system:   "@, system@))
    } else {
        sent
    };
    if let Some(system) = envelope.star_system {
        a_text_is_strung_last(sent, line_of("system:   "@, system@));
    }
    assert(strung(placed) =~= schema + live + maybe_line("system:   "@, envelope.star_system));
    let dated = if let Some(version) = envelope.version {
        placed.push(line_of("version:  "@, version@))
    } else {
        placed
    };
    if let Some(version) = envelope.version {
        a_text_is_strung_last(placed, line_of("version:  "@, version@));
    }
    assert(strung(dated) =~= strung(placed) + maybe_line("version:  "@, envelope.version));
    a_text_is_strung_last(dated, software);
    a_text_is_strung_last(dated.push(software), uploader);
    a_text_is_strung_last(dated.push(software).push(uploader), gateway);
    let all = dated.push(software).push(uploader).push(gateway);
    a_text_is_strung_last(all, "\n"@);
    let system = seq!["system:   "@ + envelope.star_system->0@ + "\n"@];
    let version = seq!["version:  "@ + envelope.version->0@ + "\n"@];
    let by = seq![software, uploader, gateway, "\n"@];
    let lines = seq![schema, live] + if envelope.star_system is Some {
        system
    } else {
        Seq::empty()
    } + if envelope.version is Some {
        version
    } else {
        Seq::empty()
    } + by;
    assert(all.push("\n"@) =~= lines);
    assert(strung(lines) =~= about(envelope));
    let text = detailed(envelope, payload);
    if let Some(variant) = variant_of(envelope.message) {
        assert(text =~= strung(lines) + variant + "(\n"@ + indented(payload + ",\n"@, true)
            + ")"@ + "\n"@);
    } else {
        assert(text =~= strung(lines) + payload + "\n"@);
    }
}

/// An empty line of a payload is shown as four spaces.
pub proof fn an_empty_line_is_shown_four_spaces_in(rest: Seq<char>)
    ensures
        indented("\n"@ + rest, true) == "    "@ + "\n"@ + indented(rest, true),
        indented(Seq::empty(), true).len() == 0,
{
    reveal_strlit("\n");
    let all = "\n"@ + rest;
    assert(all.skip(1) =~= rest);
    assert(seq![all[0]] =~= "\n"@);
}

} // verus!
