//! The window's state: everything a frame draws from and remembers between them.

use crate::envelope::Envelope;
use crate::galaxy::Galaxy;
use crate::gui::cadence::{recorded, ticked, Cadence};
use crate::gui::columns::{
    columns_of, default_columns, shown, shown_of, whole_seconds, ColumnState, Field,
};
use crate::gui::feed::{took, Feed, FeedView};
use crate::gui::log::{pad, padded, LogLine};
use crate::gui::rows::{list, listing, views_of, Listed};
use crate::gui::spans::{floored, format_span, span_text};
use crate::gui::tally::Counts;
use crate::json::maybe;
use crate::moment::{format_time, nanos_between, shows_time, Moment};
use crate::text::{decimal, decimal_text, sorts_before, texts};
use vstd::prelude::*;
use vstd::string::StringExecFns;

verus! {

/// The window's state
pub struct App {
    pub feed: Feed,
    /// Substring matched against a row's schema, event, system, body, station
    /// and uploader; independent of which columns are shown.
    pub filter: String,
    /// Whether test data is enabled: the subscription carries both galaxies,
    /// the live column and the live/test filters show, and non-live events
    /// appear. Without it only live events arrive.
    pub test_enabled: bool,
    /// Which galaxy's rows to show. Starts on the test galaxy where test data
    /// is enabled, since watching test data is the reason to have asked for it;
    /// both otherwise, where every row is live anyway.
    pub view: Galaxy,
    /// The rendered detail of whatever row was last clicked.
    pub selected: Option<String>,
    /// The table's columns in display order, each with whether it is shown.
    pub columns: Vec<ColumnState>,
    /// Whether the log pane is shown. Hidden by default.
    pub show_log: bool,
    /// Set when the follow button is pressed, to scroll back to the newest row
    /// and resume tailing. Consumed the frame it is read.
    pub follow_latest: bool,
    /// Whether timestamps read in local time instead of UTC.
    pub local_time: bool,
    /// The feed's arrival timing.
    pub cadence: Cadence,
    /// Set once the stream has ended, so the status dot shows a dead feed apart
    /// from a merely quiet one.
    pub stream_ended: bool,
    /// The frame the feed and log were last taken in.
    pub last_frame: Option<u64>,
    /// The log as it stood when this frame began.
    pub log_lines: Vec<LogLine>,
}

/// What the worker's channel gave
pub enum Received {
    /// An envelope off the socket.
    Envelope(Envelope),
    /// Nothing more for now.
    Empty,
    /// Every sender is gone, so the worker has stopped.
    Disconnected,
}

/// Something clicked
#[derive(Debug)]
pub enum Click {
    /// The count of errors or of warnings, which leads to the log.
    Count,
    /// The follow button.
    Follow,
    /// The log button.
    Log,
    /// The log pane's own close button.
    CloseLog,
    /// A row, whose detail this is.
    Row(String),
    /// The detail pane's close button.
    CloseDetail,
}

/// The feed connection's health, from green to red
#[derive(Clone, Copy, PartialEq, Eq, Debug, Structural)]
pub enum Connection {
    /// No message has arrived yet; the socket is still coming up.
    Connecting,
    /// Messages are arriving about as often as the rate predicts.
    Online,
    /// The feed has gone quiet for longer than its rate predicts.
    Stalling,
    /// The stream stopped; no more messages are coming.
    Stopped,
}

impl Connection {
    /// The word beside the dot.
    pub open spec fn labelled(self) -> Seq<char> {
        match self {
            Connection::Connecting => "connecting"@,
            Connection::Online => "online"@,
            Connection::Stalling => "stalling"@,
            Connection::Stopped => "stopped"@,
        }
    }

    /// The word beside the dot.
    pub fn label(self) -> (label: &'static str)
        ensures
            label@ == self.labelled(),
    {
        match self {
            Connection::Connecting => "connecting",
            Connection::Online => "online",
            Connection::Stalling => "stalling",
            Connection::Stopped => "stopped",
        }
    }

    /// What the dot means, on hover.
    pub open spec fn explained(self) -> Seq<char> {
        match self {
            Connection::Connecting => "waiting for the first message"@,
            Connection::Online => "messages arriving as expected"@,
            Connection::Stalling => "quieter than the feed's rate predicts"@,
            Connection::Stopped => "the stream stopped; the feed is frozen"@,
        }
    }

    /// What the dot means, on hover.
    pub fn tooltip(self) -> (tooltip: &'static str)
        ensures
            tooltip@ == self.explained(),
    {
        match self {
            Connection::Connecting => "waiting for the first message",
            Connection::Online => "messages arriving as expected",
            Connection::Stalling => "quieter than the feed's rate predicts",
            Connection::Stopped => "the stream stopped; the feed is frozen",
        }
    }
}

/// What the status bar says, short of the rate
#[derive(Debug)]
pub struct StatusBar {
    /// The wall clock, in the same zone as the feed's time columns.
    pub clock: String,
    /// The connection's health.
    pub connection: Connection,
    /// The count of errors, where there are any.
    pub errors: Option<String>,
    /// The count of warnings, where there are any.
    pub warnings: Option<String>,
    /// How much time the window spans, where it holds anything.
    pub span: Option<String>,
    /// How many messages were received.
    pub received: String,
    /// How many of each schema were received, a line each.
    pub per_schema: Vec<String>,
    /// How many kinds of software sent them.
    pub software: String,
    /// How many each kind of software sent, a line each.
    pub per_software: Vec<String>,
}

/// A count under a name, said only where there is anything to count.
pub open spec fn said_count(name: Seq<char>, count: u64) -> Option<Seq<char>> {
    if count > 0 {
        Some(name + " "@ + decimal(count as nat))
    } else {
        None
    }
}

/// A count and its name on a line, the count set to the right of six places.
pub open spec fn count_line(entry: (Seq<char>, u64)) -> Seq<char> {
    padded(decimal(entry.1 as nat), 6) + "  "@ + entry.0
}

/// Counts by name, a line each.
pub open spec fn count_lines(entries: Seq<(Seq<char>, u64)>) -> Seq<Seq<char>> {
    Seq::new(entries.len(), |i: int| count_line(entries[i]))
}

/// A count under a name, where there is anything to count.
fn say_count(name: &str, count: u64) -> (said: Option<String>)
    ensures
        maybe(said) == said_count(name@, count),
{
    if count > 0 {
        let mut said = name.to_owned();
        said.append(" ");
        let count = decimal_text(count as u128);
        said.append(count.as_str());
        Some(said)
    } else {
        None
    }
}

/// Counts by name, a line each.
fn say_counts(counts: &Counts) -> (lines: Vec<String>)
    ensures
        texts(lines@) == count_lines(counts@),
{
    let mut lines: Vec<String> = Vec::new();
    let mut i: usize = 0;
    while i < counts.len()
        invariant
            i <= counts@.len(),
            texts(lines@) == count_lines(counts@).take(i as int),
        decreases counts@.len() - i,
    {
        let ghost before = texts(lines@);
        let (name, count) = counts.entry(i);
        let number = decimal_text(count as u128);
        let mut line = pad(number.as_str(), 6);
        line.append("  ");
        line.append(name);
        assert(line@ =~= count_line(counts@[i as int]));
        lines.push(line);
        assert(texts(lines@) =~= before.push(line@));
        i += 1;
        assert(count_lines(counts@).take(i as int) =~= count_lines(counts@).take(i - 1).push(
            count_line(counts@[i - 1]),
        ));
    }
    assert(count_lines(counts@).take(i as int) =~= count_lines(counts@));
    lines
}

/// What the feed table lists
pub struct FeedList<'a> {
    /// The columns drawn, in order.
    pub shown: Vec<Field>,
    /// Each column's header.
    pub headers: Vec<String>,
    /// The rows, oldest first.
    pub rows: Vec<Listed<'a>>,
}

/// Whether an app comes to another, and asks for more, by what the worker's
/// channel gave.
pub open spec fn drained(
    before: App,
    received: Received,
    now: u128,
    outlier: bool,
    after: App,
    more: bool,
) -> bool {
    &&& more == (received is Envelope)
    &&& after.filter == before.filter
    &&& after.test_enabled == before.test_enabled
    &&& after.view == before.view
    &&& after.selected == before.selected
    &&& after.columns == before.columns
    &&& after.show_log == before.show_log
    &&& after.follow_latest == before.follow_latest
    &&& after.local_time == before.local_time
    &&& after.last_frame == before.last_frame
    &&& after.log_lines == before.log_lines
    &&& match received {
        Received::Envelope(envelope) => {
            &&& after.stream_ended == before.stream_ended
            &&& recorded(before.cadence, after.cadence, now)
            &&& took(
                before.feed@,
                after.feed@,
                envelope,
                before.cadence.stall_at(now, outlier),
            )
        },
        _ => {
            &&& after.feed == before.feed
            &&& after.stream_ended == (before.stream_ended || received is Disconnected)
            &&& ticked(before.cadence, after.cadence, now, outlier)
        },
    }
}

/// Whether an app comes to another as a frame is drawn, which is new or not.
pub open spec fn begins(before: App, frame: u64, after: App, fresh: bool) -> bool {
    &&& fresh == (before.last_frame != Some(frame))
    &&& after == if fresh {
        App { last_frame: Some(frame), follow_latest: false, ..before }
    } else {
        before
    }
}

impl App {
    /// Whether this is an app nothing has come to yet.
    pub open spec fn is_new(self, test_enabled: bool, capacity: nat) -> bool {
        &&& self.feed@ == FeedView::empty(capacity)
        &&& self.filter@.len() == 0
        &&& self.test_enabled == test_enabled
        &&& self.view == if test_enabled {
            Galaxy::TEST
        } else {
            Galaxy::ALL
        }
        &&& self.selected is None
        &&& self.columns@ == columns_of(test_enabled)
        &&& !self.show_log
        &&& !self.follow_latest
        &&& self.local_time
        &&& self.cadence.is_fresh()
        &&& !self.stream_ended
        &&& self.last_frame is None
        &&& self.log_lines@.len() == 0
    }

    /// This app with something clicked.
    pub open spec fn clicked(self, click: Click) -> App {
        match click {
            Click::Count => App { show_log: true, ..self },
            Click::Follow => App { follow_latest: true, ..self },
            Click::Log => App { show_log: !self.show_log, ..self },
            Click::CloseLog => App { show_log: false, ..self },
            Click::Row(detail) => App { selected: Some(detail), ..self },
            Click::CloseDetail => App { selected: None, ..self },
        }
    }

    /// Whether this is what the status bar says.
    pub open spec fn bars(
        self,
        wall: (int, int),
        now: u128,
        outlier: bool,
        errors: u64,
        warnings: u64,
        bar: StatusBar,
    ) -> bool {
        &&& shows_time(bar.clock@, wall, self.local_time)
        &&& bar.connection == self.health(now, outlier)
        &&& maybe(bar.errors) == said_count("errors"@, errors)
        &&& maybe(bar.warnings) == said_count("warnings"@, warnings)
        &&& ({
            let kept = self.feed@.kept;
            maybe(bar.span) == if kept.len() == 0 {
                None
            } else {
                Some(
                    "span "@ + floored(
                        whole_seconds(
                            nanos_between(
                                kept.last().envelope.header.gateway_timestamp@,
                                kept[0].envelope.header.gateway_timestamp@,
                            ),
                        ),
                    ),
                )
            }
        })
        &&& bar.received@ == "received "@ + decimal(self.feed@.received)
        &&& texts(bar.per_schema@) == count_lines(self.feed@.per_schema)
        &&& bar.software@ == "software "@ + decimal(self.feed@.per_software.len())
        &&& texts(bar.per_software@) == count_lines(self.feed@.per_software)
    }

    /// Whether this is what the feed table lists.
    pub open spec fn lists(self, table: FeedList) -> bool {
        &&& table.shown@ == shown_of(self.columns@)
        &&& table.headers@.len() == table.shown@.len()
        &&& forall|i: int|
            0 <= i < table.headers@.len() ==> (#[trigger] table.headers@[i])@
                == table.shown@[i].headed(self.feed@, self.view)
        &&& views_of(table.rows@) == listing(self.feed@, self.view, self.filter@)
    }

    /// Whether the feed and the cadence hold what they should.
    pub open spec fn is_app(self) -> bool {
        self.feed@.is_feed() && self.cadence.is_bounded()
    }

    /// Build the app around the size of the feed's scrollback window.
    pub fn new(test_enabled: bool, capacity: usize) -> (app: Self)
        ensures
            app.is_app(),
            app.is_new(test_enabled, capacity as nat),
    {
        App {
            feed: Feed::new(capacity),
            filter: String::new(),
            test_enabled,
            view: if test_enabled { Galaxy::TEST } else { Galaxy::ALL },
            selected: None,
            columns: default_columns(test_enabled),
            show_log: false,
            follow_latest: false,
            local_time: true,
            cadence: Cadence::default(),
            stream_ended: false,
            last_frame: None,
            log_lines: Vec::new(),
        }
    }

    /// Take what the worker has handed over, and say whether to ask for more
    ///
    /// An envelope is recorded in the cadence and pushed, marked with the gap
    /// it followed where that was a stall; nothing more, or no worker to give
    /// more, advances the cadence and ends the taking. `outlier` says how the
    /// silence since the last arrival stands to the recent gaps.
    pub fn drain(&mut self, received: Received, now: u128, outlier: bool) -> (more: bool)
        requires
            old(self).is_app(),
            old(self).feed@.received < u64::MAX,
        ensures
            final(self).is_app(),
            drained(*old(self), received, now, outlier, *final(self), more),
    {
        match received {
            Received::Envelope(envelope) => {
                match self.cadence.record(now, outlier) {
                    Some(gap) => self.feed.push_after_gap(envelope, gap),
                    None => self.feed.push(envelope),
                }
                true
            },
            Received::Empty => {
                self.cadence.tick(now, outlier);
                false
            },
            Received::Disconnected => {
                self.stream_ended = true;
                self.cadence.tick(now, outlier);
                false
            },
        }
    }

    /// The health of the feed's connection.
    pub open spec fn health(self, now: u128, outlier: bool) -> Connection {
        if self.stream_ended {
            Connection::Stopped
        } else if self.cadence.last is None {
            Connection::Connecting
        } else if self.cadence.sample_at(now, outlier).stalled {
            Connection::Stalling
        } else {
            Connection::Online
        }
    }

    /// The health of the feed's connection, as the status dot shows it.
    pub fn connection(&self, now: u128, outlier: bool) -> (health: Connection)
        ensures
            health == self.health(now, outlier),
    {
        if self.stream_ended {
            Connection::Stopped
        } else if self.cadence.last().is_none() {
            Connection::Connecting
        } else if self.cadence.stalled(now, outlier) {
            Connection::Stalling
        } else {
            Connection::Online
        }
    }

    /// A frame is being drawn, and whether it is a new one
    ///
    /// A frame may be laid out more than once, and taking new messages on the
    /// second pass would move rows out from under the first. So the channel and
    /// the log are read once a frame, where this answers that it is new, and a
    /// follow request is cleared once a frame, not once a pass.
    pub fn begin(&mut self, frame: u64) -> (fresh: bool)
        ensures
            begins(*old(self), frame, *final(self), fresh),
    {
        let drawn = match self.last_frame {
            Some(last) => last == frame,
            None => false,
        };
        if !drawn {
            self.last_frame = Some(frame);
            self.follow_latest = false;
        }
        !drawn
    }

    /// Something was clicked.
    pub fn click(&mut self, click: Click)
        ensures
            *final(self) == old(self).clicked(click),
    {
        match click {
            Click::Count => {
                self.show_log = true;
            },
            Click::Follow => {
                self.follow_latest = true;
            },
            Click::Log => {
                self.show_log = !self.show_log;
            },
            Click::CloseLog => {
                self.show_log = false;
            },
            Click::Row(detail) => {
                self.selected = Some(detail);
            },
            Click::CloseDetail => {
                self.selected = None;
            },
        }
    }

    /// What the status bar says
    ///
    /// `wall` is the time of day, `now` the monotonic clock, and `errors` and
    /// `warnings` the log's counts. In local time, which digits stand in the
    /// clock is the machine's time zone to say.
    pub fn status_bar(
        &self,
        wall: Moment,
        now: u128,
        outlier: bool,
        errors: u64,
        warnings: u64,
    ) -> (bar: StatusBar)
        ensures
            self.bars(wall@, now, outlier, errors, warnings, bar),
    {
        let span = match self.feed.window_duration() {
            Some(span) => {
                assert(span.secs == whole_seconds(span.total()));
                let text = format_span(span);
                Some("span ".to_owned().concat(text.as_str()))
            },
            None => None,
        };
        let received = decimal_text(self.feed.received() as u128);
        let software = decimal_text(self.feed.per_software().len() as u128);
        StatusBar {
            clock: format_time(wall, self.local_time),
            connection: self.connection(now, outlier),
            errors: say_count("errors", errors),
            warnings: say_count("warnings", warnings),
            span,
            received: "received ".to_owned().concat(received.as_str()),
            per_schema: say_counts(self.feed.per_schema()),
            software: "software ".to_owned().concat(software.as_str()),
            per_software: say_counts(self.feed.per_software()),
        }
    }

    /// What the feed table lists: the columns shown with their headers, and the
    /// rows that the view and the filter let through.
    pub fn feed_list(&self) -> (table: FeedList<'_>)
        requires
            self.is_app(),
        ensures
            self.lists(table),
    {
        let fields = shown(&self.columns);
        let mut headers: Vec<String> = Vec::new();
        let mut i: usize = 0;
        while i < fields.len()
            invariant
                i <= fields@.len(),
                headers@.len() == i,
                forall|k: int|
                    0 <= k < i ==> (#[trigger] headers@[k])@ == fields@[k].headed(
                        self.feed@,
                        self.view,
                    ),
            decreases fields@.len() - i,
        {
            headers.push(fields[i].header(&self.feed, self.view));
            i += 1;
        }
        let rows = list(&self.feed, self.view, self.filter.as_str());
        FeedList { shown: fields, headers, rows }
    }
}

/// A stream that has ended shows as stopped whatever else holds, and before any
/// message the connection shows as coming up.
pub proof fn a_dead_stream_wins(app: App, now: u128, outlier: bool)
    ensures
        app.stream_ended ==> app.health(now, outlier) == Connection::Stopped,
        !app.stream_ended && app.cadence.last is None ==> app.health(now, outlier)
            == Connection::Connecting,
{
}

/// A window opens on nothing, unfiltered, in local time, with its log away: on
/// the test galaxies alone where test data was asked for, and on every row
/// otherwise.
pub proof fn a_window_opens_on_what_was_asked_for(app: App, test_enabled: bool, capacity: nat)
    requires
        app.is_new(test_enabled, capacity),
    ensures
        app.view.admits(false),
        app.view.admits(true) <==> !test_enabled,
        app.test_enabled == test_enabled,
        app.feed@.kept.len() == 0 && app.feed@.received == 0 && app.feed@.errors == 0
            && app.feed@.capacity == capacity,
        app.filter@.len() == 0 && app.selected is None && app.local_time,
        !app.show_log && !app.follow_latest && !app.stream_ended,
        forall|now: u128, outlier: bool| #[trigger]
            app.health(now, outlier) == Connection::Connecting,
{
}

/// A feed is stopped exactly where its stream has ended; coming up where
/// nothing has arrived; stalling where it has been silent for a second or more,
/// out of the ordinary of the two gaps or more there have been; and online
/// otherwise.
pub proof fn a_feeds_health_is_what_its_silence_says(app: App, now: u128, outlier: bool)
    ensures
        app.health(now, outlier) == Connection::Stopped <==> app.stream_ended,
        app.health(now, outlier) == Connection::Connecting <==> !app.stream_ended
            && app.cadence.last is None,
        app.health(now, outlier) == Connection::Stalling <==> !app.stream_ended
            && app.cadence.last is Some && now - app.cadence.last->0 >= 1_000_000_000
            && app.cadence.intervals@.len() >= 2 && outlier,
{
}

/// An envelope taken is the newest row, marked with the stall it ended where it
/// ended one, and its arrival is recorded; the stream is no more and no less
/// ended for it, and more is asked for.
pub proof fn an_envelope_taken_is_the_newest_row(
    before: App,
    envelope: Envelope,
    now: u128,
    outlier: bool,
    after: App,
    more: bool,
)
    requires
        before.is_app(),
        drained(before, Received::Envelope(envelope), now, outlier, after, more),
    ensures
        more,
        after.feed@.received == before.feed@.received + 1,
        before.feed@.capacity > 0 ==> after.feed@.kept.last().envelope == envelope
            && after.feed@.kept.last().gap == before.cadence.stall_at(now, outlier),
        after.cadence.last == Some(now),
        after.stream_ended == before.stream_ended,
        kept_as_set(before, after),
{
}

/// Nothing to take ends the taking and leaves every row as it was; only a
/// worker that has gone ends the stream, and an ended stream stays ended.
pub proof fn nothing_taken_changes_no_row(
    before: App,
    received: Received,
    now: u128,
    outlier: bool,
    after: App,
    more: bool,
)
    requires
        drained(before, received, now, outlier, after, more),
        !(received is Envelope),
    ensures
        !more,
        after.feed == before.feed,
        after.cadence.last == before.cadence.last,
        received is Disconnected ==> after.stream_ended,
        received is Empty ==> after.stream_ended == before.stream_ended,
        kept_as_set(before, after),
{
}

/// Whether whatever a viewer has set stands as it was.
pub open spec fn kept_as_set(before: App, after: App) -> bool {
    &&& after.filter == before.filter && after.view == before.view
    &&& after.selected == before.selected && after.columns == before.columns
    &&& after.show_log == before.show_log && after.follow_latest == before.follow_latest
    &&& after.local_time == before.local_time && after.test_enabled == before.test_enabled
    &&& after.last_frame == before.last_frame && after.log_lines == before.log_lines
}

/// A click does the one thing it is for: a count leads to the log and never
/// puts it away, the log button turns it over, and its close button puts it
/// away; a row shows its detail until the detail is closed or another row is
/// clicked; and following asks for the newest row.
pub proof fn a_click_does_the_one_thing_it_is_for(app: App, detail: String)
    ensures
        ({
            let counted = app.clicked(Click::Count);
            let turned = app.clicked(Click::Log);
            let closed = app.clicked(Click::CloseLog);
            let follow = app.clicked(Click::Follow);
            let row = app.clicked(Click::Row(detail));
            let bare = app.clicked(Click::CloseDetail);
            &&& counted.show_log && counted == (App { show_log: counted.show_log, ..app })
            &&& turned.show_log != app.show_log && turned == (App {
                show_log: turned.show_log,
                ..app
            })
            &&& !closed.show_log && closed == (App { show_log: closed.show_log, ..app })
            &&& follow.follow_latest && follow == (App {
                follow_latest: follow.follow_latest,
                ..app
            })
            &&& row.selected == Some(detail) && row == (App { selected: row.selected, ..app })
            &&& bare.selected is None && bare == (App { selected: bare.selected, ..app })
        }),
{
}

/// A frame is new once: drawn again it changes nothing, and a new one asks for
/// no following that was not asked for since.
pub proof fn a_frame_is_new_once(before: App, frame: u64, after: App, fresh: bool)
    requires
        begins(before, frame, after, fresh),
    ensures
        after.last_frame == Some(frame),
        fresh ==> !after.follow_latest,
        fresh <==> before.last_frame is None || before.last_frame->0 != frame,
        !fresh ==> after == before,
        after == (App {
            last_frame: after.last_frame,
            follow_latest: after.follow_latest,
            ..before
        }),
        forall|again: App, new: bool| #[trigger]
            begins(after, frame, again, new) ==> !new && again == after,
{
}

/// The status bar says the counts of errors and of warnings where there are
/// any, and nothing of them where there are none; how much was received; how
/// many kinds of software sent it; and how long the window spans where it holds
/// anything.
pub proof fn the_status_bar_says_what_there_is(
    app: App,
    wall: (int, int),
    now: u128,
    outlier: bool,
    errors: u64,
    warnings: u64,
    bar: StatusBar,
    secs: nat,
)
    requires
        app.bars(wall, now, outlier, errors, warnings, bar),
    ensures
        errors > 0 ==> maybe(bar.errors) == Some("errors "@ + decimal(errors as nat)),
        errors == 0 ==> bar.errors is None,
        warnings > 0 ==> maybe(bar.warnings) == Some("warnings "@ + decimal(warnings as nat)),
        warnings == 0 ==> bar.warnings is None,
        bar.received@ == "received "@ + decimal(app.feed@.received),
        bar.software@ == "software "@ + decimal(app.feed@.per_software.len()),
        bar.span is None <==> app.feed@.kept.len() == 0,
        app.feed@.kept.len() > 0 ==> {
            let kept = app.feed@.kept;
            let spanned = nanos_between(
                kept[kept.len() - 1].envelope.header.gateway_timestamp@,
                kept[0].envelope.header.gateway_timestamp@,
            );
            &&& secs * 1_000_000_000 <= spanned < (secs + 1) * 1_000_000_000 ==> maybe(bar.span)
                == Some("span "@ + span_text(secs))
            &&& spanned < 0 ==> maybe(bar.span) == Some("span "@ + span_text(0))
        },
        shows_time(bar.clock@, wall, app.local_time),
        bar.connection == app.health(now, outlier),
{
    reveal_strlit("errors");
    reveal_strlit("warnings");
    reveal_strlit(" ");
    reveal_strlit("errors ");
    reveal_strlit("warnings ");
    assert("errors"@ + " "@ =~= "errors "@);
    assert("warnings"@ + " "@ =~= "warnings "@);
}

/// Each name counted has a line of its own, in the order of the names, with its
/// count and then its name to the end; and there are no other lines.
pub proof fn each_name_has_a_line_of_its_own(
    app: App,
    wall: (int, int),
    now: u128,
    outlier: bool,
    errors: u64,
    warnings: u64,
    bar: StatusBar,
    i: int,
)
    requires
        app.is_app(),
        app.bars(wall, now, outlier, errors, warnings, bar),
    ensures
        bar.per_schema@.len() == app.feed@.per_schema.len(),
        bar.per_software@.len() == app.feed@.per_software.len(),
        0 <= i < bar.per_schema@.len() - 1 ==> sorts_before(
            app.feed@.per_schema[i].0,
            app.feed@.per_schema[i + 1].0,
        ),
        0 <= i < bar.per_software@.len() - 1 ==> sorts_before(
            app.feed@.per_software[i].0,
            app.feed@.per_software[i + 1].0,
        ),
        0 <= i < bar.per_schema@.len() ==> line_counts(
            bar.per_schema@[i]@,
            app.feed@.per_schema[i],
        ),
        0 <= i < bar.per_software@.len() ==> line_counts(
            bar.per_software@[i]@,
            app.feed@.per_software[i],
        ),
{
    assert(texts(bar.per_schema@).len() == bar.per_schema@.len());
    assert(texts(bar.per_software@).len() == bar.per_software@.len());
    if 0 <= i < bar.per_schema@.len() {
        assert(texts(bar.per_schema@)[i] == bar.per_schema@[i]@);
        lemma_count_line(app.feed@.per_schema[i]);
    }
    if 0 <= i < bar.per_software@.len() {
        assert(texts(bar.per_software@)[i] == bar.per_software@[i]@);
        lemma_count_line(app.feed@.per_software[i]);
    }
}

/// Whether a line is a name's count, set to the right, and its name after it.
pub open spec fn line_counts(line: Seq<char>, entry: (Seq<char>, u64)) -> bool {
    let said = decimal(entry.1 as nat) + "  "@ + entry.0;
    &&& said.is_suffix_of(line)
    &&& forall|k: int| 0 <= k < line.len() - said.len() ==> #[trigger] line[k] == ' '
}

proof fn lemma_count_line(entry: (Seq<char>, u64))
    ensures
        line_counts(count_line(entry), entry),
{
    let line = count_line(entry);
    let number = decimal(entry.1 as nat);
    let said = number + "  "@ + entry.0;
    let set = padded(number, 6);
    let spaces = set.take(set.len() - number.len());
    assert(set =~= spaces + number);
    assert(line =~= spaces + said);
    assert(line.subrange(line.len() - said.len(), line.len() as int) =~= said);
    assert forall|k: int| 0 <= k < line.len() - said.len() implies #[trigger] line[k] == ' ' by {
        assert(line[k] == set[k]);
    }
}

/// A table has a header for each column drawn, in the order of the columns, and
/// the rows that the view and the filter let through.
pub proof fn a_table_is_headed_by_its_columns(app: App, table: FeedList, i: int)
    requires
        app.lists(table),
    ensures
        table.headers@.len() == table.shown@.len(),
        table.shown@ == shown_of(app.columns@),
        0 <= i < table.headers@.len() ==> table.headers@[i]@ == table.shown@[i].headed(
            app.feed@,
            app.view,
        ),
        views_of(table.rows@) == listing(app.feed@, app.view, app.filter@),
{
}

/// Each health has its own word and its own meaning.
pub proof fn a_health_is_called_what_it_is(health: Connection)
    ensures
        health is Connecting <==> health.labelled() == "connecting"@,
        health is Online <==> health.labelled() == "online"@,
        health is Stalling <==> health.labelled() == "stalling"@,
        health is Stopped <==> health.labelled() == "stopped"@,
        health is Connecting <==> health.explained() == "waiting for the first message"@,
        health is Online <==> health.explained() == "messages arriving as expected"@,
        health is Stalling <==> health.explained() == "quieter than the feed's rate predicts"@,
        health is Stopped <==> health.explained() == "the stream stopped; the feed is frozen"@,
{
    reveal_strlit("connecting");
    reveal_strlit("online");
    reveal_strlit("stalling");
    reveal_strlit("stopped");
    reveal_strlit("waiting for the first message");
    reveal_strlit("messages arriving as expected");
    reveal_strlit("quieter than the feed's rate predicts");
    reveal_strlit("the stream stopped; the feed is frozen");
    assert("connecting"@.len() == 10);
    assert("online"@.len() == 6);
    assert("stalling"@.len() == 8);
    assert("stopped"@.len() == 7);
    assert("waiting for the first message"@[0] == 'w');
    assert("messages arriving as expected"@[0] == 'm');
    assert("quieter than the feed's rate predicts"@[0] == 'q');
    assert("the stream stopped; the feed is frozen"@[0] == 't');
}

} // verus!
