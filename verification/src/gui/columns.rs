//! The columns of the feed table.

use crate::envelope::Envelope;
use crate::galaxy::Galaxy;
use crate::gui::feed::{
    a_row_is_searched_by_all_it_shows, event_label, label_of, searched, system_of, system_text,
    Feed, FeedView,
};
use crate::gui::spans::{format_delta, signed_span, span_text};
use crate::json::maybe;
use crate::moment::{format_time, nanos_between, shows_time};
use crate::names::{family_of, schema_family};
use crate::text::{decimal, decimal_text, holds};
use vstd::prelude::*;
use vstd::string::StringExecFns;

verus! {

/// One column of the feed table
///
/// A column's name, header and text all live on the one value: the table is
/// built, its header laid out, its cells filled and the filter matched by
/// walking the same set, so a column is added, dropped or reordered in one
/// place and every part of the table follows.
#[derive(Clone, Copy, Debug, PartialEq, Eq, Structural)]
pub enum Field {
    /// When EDDN received the message: the gateway's own timestamp.
    GatewayTime,
    /// When the game wrote the event: the message's own timestamp. Off by
    /// default.
    JournalTime,
    /// Gateway-received time less the event's own time: how long the message
    /// took to reach EDDN. Off by default.
    Delta,
    /// The live/test dot; offered only when both galaxies are subscribed to.
    Live,
    System,
    Body,
    Station,
    Schema,
    Event,
}

/// A feed column and whether it is currently shown
#[derive(Clone, Copy, Debug, PartialEq, Eq, Structural)]
pub struct ColumnState {
    pub field: Field,
    pub visible: bool,
}

impl Field {
    /// The name shown on the column's toggle.
    pub open spec fn labelled(self) -> Seq<char> {
        match self {
            Field::GatewayTime => "gateway time"@,
            Field::JournalTime => "journal time"@,
            Field::Delta => "delta"@,
            Field::Live => "live"@,
            Field::System => "system"@,
            Field::Body => "body"@,
            Field::Station => "station"@,
            Field::Schema => "schema"@,
            Field::Event => "event"@,
        }
    }

    /// The name shown on the column's toggle.
    pub fn label(self) -> (label: &'static str)
        ensures
            label@ == self.labelled(),
    {
        match self {
            Field::GatewayTime => "gateway time",
            Field::JournalTime => "journal time",
            Field::Delta => "delta",
            Field::Live => "live",
            Field::System => "system",
            Field::Body => "body",
            Field::Station => "station",
            Field::Schema => "schema",
            Field::Event => "event",
        }
    }
}

/// A header with the count it runs.
pub open spec fn counted(name: Seq<char>, count: nat) -> Seq<char> {
    name + " ("@ + decimal(count) + ")"@
}

/// A header with the count it runs.
fn with_count(name: &str, count: u128) -> (text: String)
    ensures
        text@ == counted(name@, count as nat),
{
    let mut text = name.to_owned();
    text.append(" (");
    let count = decimal_text(count);
    text.append(count.as_str());
    text.append(")");
    text
}

/// What a cell of the table shows
#[derive(Debug)]
pub enum Cell {
    /// A text in the fixed-width face: a time or a length of time.
    Fixed(String),
    /// A dot, bright for the live galaxy.
    Dot(bool),
    /// A text on the tint of its category.
    Tinted(String),
    /// A text.
    Plain(String),
}

/// So many nanoseconds as whole seconds, rounded toward zero.
pub open spec fn whole_seconds(nanos: int) -> int {
    if nanos < 0 {
        -((-nanos) / 1_000_000_000)
    } else {
        nanos / 1_000_000_000
    }
}

impl Field {
    /// The header's text, with a running count where the feed keeps one.
    pub open spec fn headed(self, feed: FeedView, galaxy: Galaxy) -> Seq<char> {
        match self {
            Field::Live => Seq::empty(),
            Field::System => counted("systems"@, feed.systems.count(galaxy)),
            Field::Body => counted("bodies"@, feed.bodies.count(galaxy)),
            Field::Station => counted("stations"@, feed.stations.count(galaxy)),
            _ => self.labelled(),
        }
    }

    /// The header's text, with a running count where the feed keeps one.
    pub fn header(self, feed: &Feed, galaxy: Galaxy) -> (text: String)
        ensures
            text@ == self.headed(feed@, galaxy),
    {
        match self {
            Field::GatewayTime => "gateway time".to_owned(),
            Field::JournalTime => "journal time".to_owned(),
            Field::Delta => "delta".to_owned(),
            Field::Live => {
                let text = String::new();
                assert(text@ =~= Seq::<char>::empty());
                text
            },
            Field::System => with_count("systems", feed.systems(galaxy)),
            Field::Body => with_count("bodies", feed.bodies(galaxy)),
            Field::Station => with_count("stations", feed.stations(galaxy)),
            Field::Schema => "schema".to_owned(),
            Field::Event => "event".to_owned(),
        }
    }

    /// The cell's text, or nothing for a column that paints itself.
    pub open spec fn texted(self, envelope: Envelope) -> Option<Seq<char>> {
        match self {
            Field::GatewayTime => None,
            Field::JournalTime => None,
            Field::Live => None,
            Field::Delta => None,
            Field::System => Some(system_of(envelope)),
            Field::Body => maybe(envelope.body),
            Field::Station => maybe(envelope.station),
            Field::Schema => Some(family_of(envelope.schema_ref@)),
            Field::Event => Some(label_of(envelope.message)),
        }
    }

    /// The cell's text, or `None` for a column that paints itself
    ///
    /// This is the single reading of a column, used both to fill its cell and
    /// to match the filter, so the two never drift: what the filter searches is
    /// exactly what a column shows. The times, the delta and the live dot draw
    /// themselves and carry no searchable text.
    pub fn text(self, envelope: &Envelope) -> (text: Option<String>)
        ensures
            maybe(text) == self.texted(*envelope),
    {
        match self {
            Field::GatewayTime => None,
            Field::JournalTime => None,
            Field::Live => None,
            Field::Delta => None,
            Field::System => Some(system_text(envelope)),
            Field::Body => match &envelope.body {
                Some(body) => Some(body.clone()),
                None => None,
            },
            Field::Station => match &envelope.station {
                Some(station) => Some(station.clone()),
                None => None,
            },
            Field::Schema => Some(schema_family(envelope.schema_ref.as_str()).to_owned()),
            Field::Event => Some(event_label(&envelope.message)),
        }
    }

    /// The cell's text, or an empty one where there is none.
    fn filled(self, envelope: &Envelope) -> (text: String)
        ensures
            text@ == match self.texted(*envelope) {
                Some(text) => text,
                None => Seq::empty(),
            },
    {
        match self.text(envelope) {
            Some(text) => text,
            None => {
                let text = String::new();
                assert(text@ =~= Seq::<char>::empty());
                text
            },
        }
    }

    /// Whether this is what a cell of this column shows of an envelope.
    pub open spec fn shows(self, envelope: Envelope, local: bool, cell: Cell) -> bool {
        match self {
            Field::GatewayTime => cell matches Cell::Fixed(text) && shows_time(
                text@,
                envelope.header.gateway_timestamp@,
                local,
            ),
            Field::JournalTime => cell matches Cell::Fixed(text)
                && match envelope.message.written_at() {
                Some(at) => shows_time(text@, at, local),
                None => text@.len() == 0,
            },
            Field::Delta => cell matches Cell::Fixed(text)
                && match envelope.message.written_at() {
                Some(at) => text@ == signed_span(
                    whole_seconds(nanos_between(envelope.header.gateway_timestamp@, at)),
                ),
                None => text@.len() == 0,
            },
            Field::Live => cell == Cell::Dot(envelope.live),
            Field::Schema => cell matches Cell::Tinted(text) && Some(text@) == self.texted(
                envelope,
            ),
            Field::Event => cell matches Cell::Tinted(text) && Some(text@) == self.texted(
                envelope,
            ),
            _ => cell matches Cell::Plain(text) && text@ == match self.texted(envelope) {
                Some(text) => text,
                None => Seq::empty(),
            },
        }
    }

    /// What one cell of this column shows
    ///
    /// A time is spelled in local time where `local` is set, and then which
    /// digits stand in it is the machine's time zone to say. A message that
    /// says no time of its own leaves its journal time and its delta empty.
    pub fn cell(self, envelope: &Envelope, local: bool) -> (cell: Cell)
        ensures
            self.shows(*envelope, local, cell),
    {
        match self {
            Field::GatewayTime => Cell::Fixed(
                format_time(envelope.header.gateway_timestamp, local),
            ),
            Field::JournalTime => Cell::Fixed(
                match envelope.message.timestamp() {
                    Some(event) => format_time(event, local),
                    None => String::new(),
                },
            ),
            Field::Delta => Cell::Fixed(
                match envelope.message.timestamp() {
                    Some(event) => {
                        let delta = envelope.header.gateway_timestamp.since(event);
                        assert(delta.secs == whole_seconds(delta.total()));
                        format_delta(delta)
                    },
                    None => String::new(),
                },
            ),
            Field::Live => Cell::Dot(envelope.live),
            // The tint keys off the very text the cell shows, which is the same
            // string the filter searches, so colour, text and filter are one
            // reading and cannot drift.
            Field::Schema => Cell::Tinted(self.filled(envelope)),
            Field::Event => Cell::Tinted(self.filled(envelope)),
            _ => Cell::Plain(self.filled(envelope)),
        }
    }
}

/// A column as it ships.
pub open spec fn column(field: Field) -> ColumnState {
    ColumnState { field, visible: field != Field::JournalTime && field != Field::Delta }
}

/// The columns in display order, the live dot among them only when test data
/// is enabled.
pub open spec fn columns_of(test_enabled: bool) -> Seq<ColumnState> {
    let times = seq![column(Field::GatewayTime), column(Field::JournalTime), column(Field::Delta)];
    let names = seq![
        column(Field::Schema),
        column(Field::Event),
        column(Field::System),
        column(Field::Body),
        column(Field::Station),
    ];
    if test_enabled {
        times.push(column(Field::Live)) + names
    } else {
        times + names
    }
}

/// The feed's columns in display order, every one shown but the journal time
/// and the gateway delta
///
/// The live/test dot is offered only when both galaxies are subscribed to;
/// without the test one every message is live and the column would say
/// nothing. The journal time and the delta are diagnostics most runs do not
/// want, so they ship present but off.
pub fn default_columns(test_enabled: bool) -> (columns: Vec<ColumnState>)
    ensures
        columns@ == columns_of(test_enabled),
{
    let mut columns: Vec<ColumnState> = vec![
        ColumnState { field: Field::GatewayTime, visible: true },
        ColumnState { field: Field::JournalTime, visible: false },
        ColumnState { field: Field::Delta, visible: false },
    ];
    if test_enabled {
        columns.push(ColumnState { field: Field::Live, visible: true });
    }
    columns.push(ColumnState { field: Field::Schema, visible: true });
    columns.push(ColumnState { field: Field::Event, visible: true });
    columns.push(ColumnState { field: Field::System, visible: true });
    columns.push(ColumnState { field: Field::Body, visible: true });
    columns.push(ColumnState { field: Field::Station, visible: true });
    assert(columns@ == columns_of(test_enabled));
    columns
}

/// The columns that are shown, in display order.
pub open spec fn shown_of(columns: Seq<ColumnState>) -> Seq<Field>
    decreases columns.len(),
{
    if columns.len() == 0 {
        Seq::empty()
    } else if columns.last().visible {
        shown_of(columns.drop_last()).push(columns.last().field)
    } else {
        shown_of(columns.drop_last())
    }
}

/// The columns actually drawn
///
/// The table, its header and its rows are all built by walking this one list,
/// so they never fall out of step however the toggles leave it.
pub fn shown(columns: &Vec<ColumnState>) -> (fields: Vec<Field>)
    ensures
        fields@ == shown_of(columns@),
{
    let mut fields: Vec<Field> = Vec::new();
    let mut i: usize = 0;
    while i < columns.len()
        invariant
            i <= columns.len(),
            fields@ == shown_of(columns@.take(i as int)),
        decreases columns.len() - i,
    {
        assert(columns@.take(i + 1).drop_last() == columns@.take(i as int));
        if columns[i].visible {
            fields.push(columns[i].field);
        }
        i += 1;
    }
    assert(columns@.take(i as int) == columns@);
    fields
}

/// What a column shows of a row stands in the text the row is searched by, so a
/// filter finds what is on screen.
pub proof fn a_filter_finds_what_a_column_shows(field: Field, envelope: Envelope)
    requires
        field.texted(envelope) is Some,
    ensures
        holds(searched(envelope), field.texted(envelope)->0),
{
    a_row_is_searched_by_all_it_shows(envelope);
}

/// Each column that shows a text shows its own part of the envelope, and the
/// body and the station nothing where there is none; the times, the delta and
/// the live dot show no text that is searched.
pub proof fn a_column_shows_its_own_part(envelope: Envelope)
    ensures
        Field::Schema.texted(envelope) == Some(family_of(envelope.schema_ref@)),
        Field::Event.texted(envelope) == Some(label_of(envelope.message)),
        Field::System.texted(envelope) == Some(system_of(envelope)),
        envelope.body is Some ==> Field::Body.texted(envelope) == Some(envelope.body->0@),
        envelope.body is None ==> Field::Body.texted(envelope) is None,
        envelope.station is Some ==> Field::Station.texted(envelope) == Some(envelope.station->0@),
        envelope.station is None ==> Field::Station.texted(envelope) is None,
        Field::GatewayTime.texted(envelope) is None && Field::JournalTime.texted(envelope) is None,
        Field::Delta.texted(envelope) is None && Field::Live.texted(envelope) is None,
{
}

/// The columns that count name what they count and how many the galaxy shows,
/// the live dot has no header, and every other column is headed by its label.
pub proof fn a_header_counts_what_its_column_names(feed: FeedView, galaxy: Galaxy)
    ensures
        Field::System.headed(feed, galaxy) == "systems ("@ + decimal(feed.systems.count(galaxy))
            + ")"@,
        Field::Body.headed(feed, galaxy) == "bodies ("@ + decimal(feed.bodies.count(galaxy))
            + ")"@,
        Field::Station.headed(feed, galaxy) == "stations ("@ + decimal(
            feed.stations.count(galaxy),
        ) + ")"@,
        Field::Live.headed(feed, galaxy).len() == 0,
        Field::GatewayTime.headed(feed, galaxy) == "gateway time"@,
        Field::JournalTime.headed(feed, galaxy) == "journal time"@,
        Field::Delta.headed(feed, galaxy) == "delta"@,
        Field::Schema.headed(feed, galaxy) == "schema"@,
        Field::Event.headed(feed, galaxy) == "event"@,
{
    reveal_strlit("systems");
    reveal_strlit("bodies");
    reveal_strlit("stations");
    reveal_strlit(" (");
    reveal_strlit("systems (");
    reveal_strlit("bodies (");
    reveal_strlit("stations (");
    assert("systems"@ + " ("@ =~= "systems ("@);
    assert("bodies"@ + " ("@ =~= "bodies ("@);
    assert("stations"@ + " ("@ =~= "stations ("@);
}

/// A column is drawn exactly where it is shown, in the order it stands in.
pub proof fn a_column_is_drawn_where_it_is_shown(columns: Seq<ColumnState>, field: Field)
    ensures
        shown_of(columns).contains(field) <==> columns.contains(
            ColumnState { field, visible: true },
        ),
        shown_of(columns).len() <= columns.len(),
        forall|more: ColumnState| #[trigger]
            shown_of(columns.push(more)) == if more.visible {
                shown_of(columns).push(more.field)
            } else {
                shown_of(columns)
            },
    decreases columns.len(),
{
    assert forall|more: ColumnState| #[trigger]
        shown_of(columns.push(more)) == if more.visible {
            shown_of(columns).push(more.field)
        } else {
            shown_of(columns)
        } by {
        assert(columns.push(more).drop_last() =~= columns);
    }
    if columns.len() > 0 {
        let most = columns.drop_last();
        let last = columns[columns.len() - 1];
        a_column_is_drawn_where_it_is_shown(most, field);
        let sought = ColumnState { field, visible: true };
        if shown_of(most).contains(field) {
            let k = choose|k: int| 0 <= k < shown_of(most).len() && shown_of(most)[k] == field;
            assert(shown_of(columns)[k] == field);
            let i = choose|i: int| 0 <= i < most.len() && most[i] == sought;
            assert(columns[i] == sought);
        }
        if last == sought {
            assert(shown_of(columns)[shown_of(columns).len() - 1] == field);
            assert(columns[columns.len() - 1] == sought);
        }
        if columns.contains(sought) && last != sought {
            let i = choose|i: int| 0 <= i < columns.len() && columns[i] == sought;
            assert(most[i] == sought);
        }
        if shown_of(columns).contains(field) && !shown_of(most).contains(field) {
            let k = choose|k: int|
                0 <= k < shown_of(columns).len() && shown_of(columns)[k] == field;
            if k < shown_of(most).len() {
                assert(shown_of(most)[k] == field);
            }
            assert(last == sought);
        }
    }
}

/// The table ships with every column but the live dot, which is there where
/// test data is, each once; and all of them shown but the journal time and the
/// delta.
pub proof fn a_table_ships_with_its_columns(test_enabled: bool, field: Field)
    ensures
        ({
            let columns = columns_of(test_enabled);
            let shown = ColumnState { field, visible: true };
            let hidden = ColumnState { field, visible: false };
            &&& columns.len() == if test_enabled {
                9int
            } else {
                8
            }
            &&& columns.contains(shown) <==> field != Field::JournalTime && field != Field::Delta
                && (field == Field::Live ==> test_enabled)
            &&& columns.contains(hidden) <==> field == Field::JournalTime || field == Field::Delta
            &&& columns[0].field == Field::GatewayTime
            &&& columns.last().field == Field::Station
        }),
{
    let columns = columns_of(test_enabled);
    let shown = ColumnState { field, visible: true };
    let hidden = ColumnState { field, visible: false };
    let n: int = if test_enabled {
        1
    } else {
        0
    };
    assert(columns[0] == column(Field::GatewayTime));
    assert(columns[1] == column(Field::JournalTime));
    assert(columns[2] == column(Field::Delta));
    assert(test_enabled ==> columns[3] == column(Field::Live));
    assert(columns[3 + n] == column(Field::Schema));
    assert(columns[4 + n] == column(Field::Event));
    assert(columns[5 + n] == column(Field::System));
    assert(columns[6 + n] == column(Field::Body));
    assert(columns[7 + n] == column(Field::Station));
    if columns.contains(shown) {
        let i = choose|i: int| 0 <= i < columns.len() && columns[i] == shown;
        assert(columns[i].visible);
    }
    if columns.contains(hidden) {
        let i = choose|i: int| 0 <= i < columns.len() && columns[i] == hidden;
        assert(!columns[i].visible);
    }
}

/// A cell shows its column's part of the envelope: the times as they are said,
/// what lies between them in whole seconds, whether the message is live, and
/// the very text that is searched for the rest. A message that says no time of
/// its own leaves its time and its delta empty.
pub proof fn a_cell_shows_its_columns_part(envelope: Envelope, local: bool, cell: Cell)
    ensures
        Field::GatewayTime.shows(envelope, local, cell) ==> cell is Fixed && shows_time(
            cell->Fixed_0@,
            envelope.header.gateway_timestamp@,
            local,
        ),
        Field::JournalTime.shows(envelope, local, cell) ==> cell is Fixed && (
        envelope.message.written_at() is Some ==> shows_time(
            cell->Fixed_0@,
            envelope.message.written_at()->0,
            local,
        )) && (envelope.message.written_at() is None ==> cell->Fixed_0@.len() == 0),
        Field::Delta.shows(envelope, local, cell) ==> cell is Fixed && (
        envelope.message.written_at() is None ==> cell->Fixed_0@.len() == 0),
        Field::Live.shows(envelope, local, cell) ==> cell == Cell::Dot(envelope.live),
        Field::Schema.shows(envelope, local, cell) ==> cell is Tinted && cell->Tinted_0@
            == family_of(envelope.schema_ref@),
        Field::Event.shows(envelope, local, cell) ==> cell is Tinted && cell->Tinted_0@
            == label_of(envelope.message),
        Field::System.shows(envelope, local, cell) ==> cell is Plain && cell->Plain_0@
            == system_of(envelope),
        Field::Body.shows(envelope, local, cell) ==> cell is Plain && (envelope.body is Some
            ==> cell->Plain_0@ == envelope.body->0@) && (envelope.body is None
            ==> cell->Plain_0@.len() == 0),
        Field::Station.shows(envelope, local, cell) ==> cell is Plain && (envelope.station is Some
            ==> cell->Plain_0@ == envelope.station->0@) && (envelope.station is None
            ==> cell->Plain_0@.len() == 0),
{
}

/// The delta is how long after it was written the gateway had a message, in
/// whole seconds, with a sign where the message was written later than that.
pub proof fn a_delta_is_how_long_a_message_took(
    envelope: Envelope,
    local: bool,
    cell: Cell,
    secs: nat,
)
    requires
        Field::Delta.shows(envelope, local, cell),
        envelope.message.written_at() is Some,
    ensures
        ({
            let took = nanos_between(
                envelope.header.gateway_timestamp@,
                envelope.message.written_at()->0,
            );
            &&& secs * 1_000_000_000 <= took < (secs + 1) * 1_000_000_000 ==> cell->Fixed_0@
                == span_text(secs)
            &&& secs > 0 && secs * 1_000_000_000 <= -took < (secs + 1) * 1_000_000_000
                ==> cell->Fixed_0@ == "-"@ + span_text(secs)
        }),
{
}

/// The columns stand in the order they are read in: the times and what lies
/// between them, the live dot where it is there, what a message is, and where.
pub proof fn the_columns_stand_in_reading_order(test_enabled: bool)
    ensures
        ({
            let columns = columns_of(test_enabled);
            let n: int = if test_enabled {
                1
            } else {
                0
            };
            &&& columns[0].field == Field::GatewayTime && columns[1].field == Field::JournalTime
            &&& columns[2].field == Field::Delta
            &&& test_enabled ==> columns[3].field == Field::Live
            &&& columns[3 + n].field == Field::Schema && columns[4 + n].field == Field::Event
            &&& columns[5 + n].field == Field::System && columns[6 + n].field == Field::Body
            &&& columns[7 + n].field == Field::Station
        }),
{
}

/// A column's toggle is named for what the column shows.
pub proof fn a_toggle_is_named_for_its_column(field: Field)
    ensures
        field == Field::GatewayTime ==> field.labelled() == "gateway time"@,
        field == Field::JournalTime ==> field.labelled() == "journal time"@,
        field == Field::Delta ==> field.labelled() == "delta"@,
        field == Field::Live ==> field.labelled() == "live"@,
        field == Field::System ==> field.labelled() == "system"@,
        field == Field::Body ==> field.labelled() == "body"@,
        field == Field::Station ==> field.labelled() == "station"@,
        field == Field::Schema ==> field.labelled() == "schema"@,
        field == Field::Event ==> field.labelled() == "event"@,
{
}

} // verus!
