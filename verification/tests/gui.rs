//! What the viewer keeps and shows.

use eddn::connection::SECOND;
use eddn::envelope::{Envelope, Header};
use eddn::galaxy::Galaxy;
use eddn::gui::app::{App, Click, Connection, Received};
use eddn::gui::cadence::{Cadence, INTERVAL_SAMPLES, RATE_SAMPLES};
use eddn::gui::category::{category_group, group_hue};
use eddn::gui::columns::{default_columns, shown, Cell, Field};
use eddn::gui::detail::{detail, detail_with};
use eddn::gui::feed::{event_label, search_text, system_text, Feed, DEFAULT_CAPACITY};
use eddn::gui::log::{line_text, pad, EventVisitor, LogBuffer, LogLine, CAPACITY};
use eddn::gui::rows::{anchor_row, list, top_anchor};
use eddn::gui::spans::{format_delta, format_span, gap_text};
use eddn::journal::{
    read_black_market, read_commodity, read_outfitting, read_shipyard, Journal,
};
use eddn::message::Message;
use eddn::moment::{Moment, Span};
use eddn::names::{schema_family, variant_name};
use eddn::reporter::Level;
use std::collections::VecDeque;

fn bare(schema_ref: &str, message: Message) -> Envelope {
    Envelope {
        schema_ref: schema_ref.to_owned(),
        header: Header {
            gateway_timestamp: Moment::new(1_600_000_000, 0).unwrap(),
            software_name: "test".to_owned(),
            software_version: "0".to_owned(),
            uploader_id: "someone".to_owned(),
        },
        message,
        live: true,
        version: None,
        star_system: None,
        station: None,
        body: None,
    }
}

fn envelope(schema_ref: &str) -> Envelope {
    bare(schema_ref, Message::Unmodeled(serde_json::from_str("{}").unwrap()))
}

fn read(message: &str) -> Message {
    let value = serde_json::from_str(message).unwrap();
    Message::Journal(Journal::read(&value).expect("a journal entry"))
}

fn journal(message: &str) -> Envelope {
    let mut envelope = bare("https://eddn.edcd.io/schemas/journal/1", read(message));
    envelope.star_system = Some("Sol".to_owned());
    envelope
}

// The feed's window and totals.

#[test]
fn tallies_distinct_objects_by_id() {
    let mut feed = Feed::default();
    feed.push(journal(
        r#"{
            "timestamp": "2020-01-01T00:00:00Z",
            "event": "FSDJump",
            "SystemAddress": 1234,
            "StarSystem": "Sol"
        }"#,
    ));
    feed.push(journal(
        r#"{
            "timestamp": "2020-01-01T00:01:00Z",
            "event": "Docked",
            "SystemAddress": 5678,
            "StarSystem": "Alpha",
            "StationName": "Hub",
            "MarketID": 999
        }"#,
    ));
    // The same system again is counted once, not twice.
    feed.push(journal(
        r#"{
            "timestamp": "2020-01-01T00:02:00Z",
            "event": "FSDJump",
            "SystemAddress": 1234,
            "StarSystem": "Sol"
        }"#,
    ));

    assert_eq!(feed.systems(Galaxy::ALL), 2);
    assert_eq!(feed.stations(Galaxy::ALL), 1);
    assert_eq!(feed.bodies(Galaxy::ALL), 0);
}

#[test]
fn counts_respect_the_galaxy_filter() {
    let mut feed = Feed::default();
    let live = journal(
        r#"{
            "timestamp": "2020-01-01T00:00:00Z",
            "event": "FSDJump",
            "SystemAddress": 1,
            "StarSystem": "Live"
        }"#,
    );
    feed.push(live); // journal() marks it live
    let mut test = journal(
        r#"{
            "timestamp": "2020-01-01T00:01:00Z",
            "event": "FSDJump",
            "SystemAddress": 2,
            "StarSystem": "Test"
        }"#,
    );
    test.live = false;
    feed.push(test);

    assert_eq!(feed.systems(Galaxy::ALL), 2); // both galaxies
    assert_eq!(feed.systems(Galaxy::LIVE), 1); // live only
    assert_eq!(feed.systems(Galaxy::TEST), 1); // test only
}

/// A key on both galaxies is counted on each, All being the two summed
#[test]
fn both_galaxies_count_a_shared_key_twice() {
    let mut feed = Feed::default();
    let live = journal(
        r#"{
            "timestamp": "2020-01-01T00:00:00Z",
            "event": "FSDJump",
            "SystemAddress": 42,
            "StarSystem": "Shared"
        }"#,
    );
    feed.push(live);
    let mut test = journal(
        r#"{
            "timestamp": "2020-01-01T00:01:00Z",
            "event": "FSDJump",
            "SystemAddress": 42,
            "StarSystem": "Shared"
        }"#,
    );
    test.live = false;
    feed.push(test);

    assert_eq!(feed.systems(Galaxy::LIVE), 1);
    assert_eq!(feed.systems(Galaxy::TEST), 1);
    assert_eq!(feed.systems(Galaxy::ALL), 2); // counted in each
}

/// A settlement names all three, a survey a body, and a market a station
#[test]
fn what_a_message_names_is_tallied() {
    let mut feed = Feed::default();
    feed.push(journal(
        r#"{
            "timestamp": "2020-01-01T00:00:00Z",
            "event": "ApproachSettlement",
            "Name": "Camp",
            "MarketID": 5,
            "SystemAddress": 1,
            "BodyID": 3,
            "BodyName": "Sol 3",
            "Latitude": 0.0,
            "Longitude": 0.0,
            "StarSystem": "Sol",
            "StarPos": [0.0, 0.0, 0.0]
        }"#,
    ));
    feed.push(journal(
        r#"{
            "timestamp": "2020-01-01T00:00:00Z",
            "event": "FSSBodySignals",
            "BodyName": "Sol 3",
            "BodyID": 3,
            "SystemAddress": 2,
            "Signals": []
        }"#,
    ));
    assert_eq!(feed.systems(Galaxy::LIVE), 1);
    assert_eq!(feed.bodies(Galaxy::LIVE), 2);
    assert_eq!(feed.stations(Galaxy::LIVE), 1);

    let market = serde_json::from_str(
        r#"{
            "timestamp": "2020-01-01T00:00:00Z",
            "systemName": "Sol",
            "stationName": "Hub",
            "marketId": 6,
            "commodities": []
        }"#,
    )
    .unwrap();
    let market = Message::Commodity(read_commodity(&market).expect("a market"));
    assert_eq!(event_label(&market), "Commodity");
    feed.push(bare("https://eddn.edcd.io/schemas/commodity/3", market));
    let black = serde_json::from_str(
        r#"{
            "timestamp": "2020-01-01T00:00:00Z",
            "systemName": "Sol",
            "stationName": "Hub",
            "name": "Gold",
            "sellPrice": 1,
            "prohibited": false
        }"#,
    )
    .unwrap();
    let black = Message::BlackMarket(read_black_market(&black).expect("a market"));
    assert_eq!(event_label(&black), "BlackMarket");
    feed.push(bare("https://eddn.edcd.io/schemas/blackmarket/1", black));
    assert_eq!(feed.stations(Galaxy::LIVE), 2);
    // Under neither galaxy there is nothing to count.
    assert_eq!(feed.stations(Galaxy::ALL), 2);
    assert_eq!(feed.stations(Galaxy::NONE), 0);
}

#[test]
fn family_strips_gateway_version_and_test() {
    assert_eq!(schema_family("https://eddn.edcd.io/schemas/journal/1"), "journal");
    assert_eq!(schema_family("https://eddn.edcd.io/schemas/journal/1/test"), "journal");
}

#[test]
fn family_keeps_an_unrecognised_reference_whole() {
    assert_eq!(schema_family("nonsense"), "nonsense");
}

#[test]
fn window_is_bounded_but_totals_are_not() {
    let mut feed = Feed::new(2);
    for _ in 0..5 {
        feed.push(envelope("https://eddn.edcd.io/schemas/journal/1"));
    }

    assert_eq!(feed.retained(), 2);
    assert_eq!(feed.received(), 5);
    assert_eq!(feed.per_schema().get("journal"), Some(5));
}

#[test]
fn zero_capacity_counts_without_keeping() {
    let mut feed = Feed::new(0);
    feed.push(envelope("https://eddn.edcd.io/schemas/commodity/3"));

    assert_eq!(feed.retained(), 0);
    assert_eq!(feed.received(), 1);
    assert_eq!(feed.per_schema().get("commodity"), Some(1));
}

/// The totals are of everything pushed, errors noted and cleared among it
#[test]
fn the_totals_outlast_the_window() {
    let mut feed = Feed::new(2);
    let sent = ["journal/1", "journal/1/test", "commodity/3", "nonsense/1", "journal/1"];
    for (n, schema) in sent.iter().enumerate() {
        let mut next = journal(&format!(
            r#"{{
                "timestamp": "2020-01-01T00:00:00Z",
                "event": "FSDJump",
                "SystemAddress": {},
                "StarSystem": "Sol"
            }}"#,
            n % 3,
        ));
        next.schema_ref = format!("https://eddn.edcd.io/schemas/{schema}");
        next.live = n != 1;
        feed.push(next);
        feed.note_error();
        if n == 2 {
            feed.clear_errors();
        }
        assert_eq!(feed.received(), n as u64 + 1);
        let counts = feed.per_schema();
        assert_eq!((0..counts.len()).map(|at| counts.entry(at).1).sum::<u64>(), feed.received());
        for name in ["journal", "commodity", "nonsense", "shipyard"] {
            let count = sent[..=n].iter().filter(|it| it.split('/').next() == Some(name)).count();
            let expected = if count == 0 { None } else { Some(count as u64) };
            assert_eq!(counts.get(name), expected, "{name} after {n}");
        }
    }
    assert_eq!(feed.errors(), 2);
    assert_eq!(feed.retained(), 2);
    // Systems 0, 2, 0 and 1 were named live, and 1 in a test galaxy.
    assert_eq!(feed.systems(Galaxy::LIVE), 3);
    assert_eq!(feed.systems(Galaxy::TEST), 1);
}

/// The counts come in name order and to everything received
#[test]
fn the_counts_come_to_what_was_received() {
    let mut feed = Feed::new(1);
    for name in ["journal", "commodity", "journal", "shipyard"] {
        let mut sent = envelope(&format!("https://eddn.edcd.io/schemas/{name}/1"));
        sent.header.software_name = format!("tool of {name}");
        feed.push(sent);
    }
    let counts = feed.per_schema();
    let all: Vec<(&str, u64)> = (0..counts.len()).map(|at| counts.entry(at)).collect();
    assert_eq!(all, vec![("commodity", 1), ("journal", 2), ("shipyard", 1)]);
    assert_eq!(all.iter().map(|(_, count)| count).sum::<u64>(), feed.received());
    assert_eq!(counts.get("outfitting"), None);
    assert_eq!(feed.per_software().get("tool of journal"), Some(2));
}

#[test]
fn errors_are_counted_apart_from_envelopes() {
    let mut feed = Feed::default();
    feed.note_error();
    feed.push(envelope("https://eddn.edcd.io/schemas/journal/1"));

    assert_eq!(feed.errors(), 1);
    assert_eq!(feed.received(), 1);
}

#[test]
fn clearing_errors_resets_the_count() {
    let mut feed = Feed::default();
    feed.note_error();
    feed.note_error();
    assert_eq!(feed.errors(), 2);

    feed.clear_errors();
    assert_eq!(feed.errors(), 0);
}

#[test]
fn a_gap_is_kept_with_the_row_that_followed_it() {
    let mut feed = Feed::default();
    feed.push(envelope("https://eddn.edcd.io/schemas/journal/1"));
    feed.push_after_gap(envelope("https://eddn.edcd.io/schemas/journal/1"), 42 * SECOND);

    let gaps: Vec<Option<u128>> = feed.rows().iter().map(|row| row.gap).collect();
    assert_eq!(gaps, vec![None, Some(42 * SECOND)]);
}

#[test]
fn window_duration_spans_oldest_to_newest() {
    let mut feed = Feed::default();
    assert!(feed.window_duration().is_none());

    let mut first = envelope("https://eddn.edcd.io/schemas/journal/1");
    first.header.gateway_timestamp = Moment::new(1_000, 0).unwrap();
    feed.push(first);
    assert_eq!(feed.window_duration(), Some(Span { secs: 0, nanos: 0 }));

    let mut later = envelope("https://eddn.edcd.io/schemas/journal/1");
    later.header.gateway_timestamp = Moment::new(1_090, 0).unwrap();
    feed.push(later);
    assert_eq!(feed.window_duration(), Some(Span { secs: 90, nanos: 0 }));
}

#[test]
fn event_label_names_the_journal_event() {
    let message = Message::Unmodeled(serde_json::from_str("{}").unwrap());
    assert_eq!(event_label(&message), "Unmodeled");
}

#[test]
fn event_label_reads_the_event_out_of_a_journal_message() {
    let jump = journal(
        r#"{
            "timestamp": "2020-01-01T00:00:00Z",
            "event": "FSDJump",
            "SystemAddress": 1,
            "StarSystem": "Sol"
        }"#,
    );
    assert_eq!(event_label(&jump.message), "FsdJump");
}

#[test]
fn variant_name_takes_what_precedes_the_fields() {
    assert_eq!(variant_name("FsdJump(FsdJump { .. })"), "FsdJump");
    assert_eq!(variant_name("Docked { .. }"), "Docked");
    assert_eq!(variant_name("Unit"), "Unit");
}

/// A row's search text carries every field a filter reaches for, lowered
#[test]
fn search_text_covers_the_columns_and_the_uploader() {
    let mut feed = Feed::default();
    let mut env = journal(
        r#"{
            "timestamp": "2020-01-01T00:00:00Z",
            "event": "FSDJump",
            "SystemAddress": 1,
            "StarSystem": "Sol"
        }"#,
    );
    env.station = Some("Daedalus".to_owned());
    env.body = Some("Sol A 3".to_owned());
    env.header.uploader_id = "UploaderXYZ".to_owned();
    feed.push(env);

    let rows = feed.rows();
    let search = rows.first().expect("one row kept").search;
    assert_eq!(search, search.to_lowercase(), "search text is lowered");
    assert!(search.contains("journal"), "schema family: {search}");
    assert!(search.contains("fsdjump"), "event: {search}");
    assert!(search.contains("sol"), "system: {search}");
    assert!(search.contains("daedalus"), "station: {search}");
    assert!(search.contains("sol a 3"), "body: {search}");
    assert!(search.contains("uploaderxyz"), "uploader: {search}");
    assert_eq!(search, "journal fsdjump sol uploaderxyz sol a 3 daedalus");
}

/// Lowering reaches past ASCII
#[test]
fn search_text_lowers_every_alphabet() {
    let mut sent = envelope("NONSENSE");
    sent.star_system = Some("\u{c9}toile \u{3a3}".to_owned());
    assert_eq!(search_text(&sent), format!("{} {} {} {}", "NONSENSE", "Unmodeled", "\u{c9}toile \u{3a3}", "someone").to_lowercase());
}

#[test]
fn nav_route_system_shows_endpoints() {
    let message = read(
        r#"{
            "timestamp": "2020-01-01T00:00:00Z",
            "event": "NavRoute",
            "Route": [
                {"StarSystem": "Sol", "SystemAddress": 1,
                 "StarPos": [0.0, 0.0, 0.0], "StarClass": "G"},
                {"StarSystem": "Wolf 359", "SystemAddress": 2,
                 "StarPos": [1.0, 1.0, 1.0], "StarClass": "M"},
                {"StarSystem": "Sirius", "SystemAddress": 3,
                 "StarPos": [2.0, 2.0, 2.0], "StarClass": "A"}
            ]
        }"#,
    );
    let envelope = bare("https://eddn.edcd.io/schemas/navroute/1", message);

    assert_eq!(system_text(&envelope), "Sol -> Sirius");
}

// The arrival timing.

/// Mean and sample standard deviation of the recent gaps, in seconds.
fn stats(cadence: &Cadence) -> Option<(f64, f64)> {
    let gaps: Vec<f64> = cadence.intervals.iter().map(|gap| *gap as f64 / 1e9).collect();
    let n = gaps.len();
    if n < 2 {
        return None;
    }
    let mean = gaps.iter().sum::<f64>() / n as f64;
    let variance = gaps.iter().map(|gap| (gap - mean).powi(2)).sum::<f64>() / (n as f64 - 1.0);
    Some((mean, variance.sqrt()))
}

/// Whether a silence is an outlier of the recent gaps.
fn outlier(cadence: &Cadence, quiet: u128) -> bool {
    stats(cadence).is_some_and(|(mean, stddev)| quiet as f64 / 1e9 > mean + 4.0 * stddev)
}

fn stalled(cadence: &Cadence, now: u128) -> bool {
    cadence.stalled(now, cadence.gap(now).is_some_and(|quiet| outlier(cadence, quiet)))
}

fn arrive(cadence: &mut Cadence, now: u128) -> Option<u128> {
    let outlier = cadence.gap(now).is_some_and(|quiet| outlier(cadence, quiet));
    cadence.record(now, outlier)
}

/// A cadence with known gaps, in whole seconds.
fn from_parts(intervals: &[u128], last: Option<u128>) -> Cadence {
    Cadence {
        intervals: intervals.iter().map(|gap| gap * SECOND).collect::<VecDeque<u128>>(),
        last,
        ..Cadence::default()
    }
}

const NOW: u128 = 1_000 * SECOND;

#[test]
fn rate_scales_until_the_window_saturates() {
    let mut cadence = Cadence::default();
    for _ in 0..30 {
        cadence.arrivals.push_back(NOW);
    }
    let rate = |cadence: &Cadence| {
        let sample = cadence.sample(NOW, false);
        sample.arrivals as f64 / (sample.window as f64 / 1e9)
    };

    // ~1s into the feed: averaged over the second actually observed.
    cadence.first = Some(NOW - SECOND);
    let ramping = rate(&cadence);
    assert!((25.0..=31.0).contains(&ramping), "ramping rate was {ramping}");

    // Past the window: averaged over the full window, so 30 / 5 = 6/s.
    cadence.first = Some(NOW - 30 * SECOND);
    let saturated = rate(&cadence);
    assert!((5.5..=6.5).contains(&saturated), "saturated rate was {saturated}");
}

#[test]
fn record_files_the_gap_between_arrivals() {
    let mut cadence = Cadence::default();

    // The first arrival has nothing to measure from, so no gap yet.
    arrive(&mut cadence, NOW);
    assert!(cadence.last().is_some());
    assert_eq!(stats(&cadence), None);

    // The second yields one gap; a spread still needs a second gap.
    arrive(&mut cadence, NOW + SECOND);
    assert_eq!(cadence.intervals.len(), 1);
    assert_eq!(stats(&cadence), None);
}

#[test]
fn intervals_are_bounded_to_the_sample_count() {
    let mut cadence = Cadence::default();
    for i in 0..(INTERVAL_SAMPLES + 50) {
        arrive(&mut cadence, NOW + i as u128 * 1_000_000);
    }
    assert_eq!(cadence.intervals.len(), INTERVAL_SAMPLES);
}

#[test]
fn a_steady_feed_gone_quiet_reads_as_stalled() {
    // A steady 1s cadence: mean 1, zero spread, so any real overrun is an
    // outlier at once.
    let steady = [1, 1, 1, 1];

    let live = from_parts(&steady, Some(NOW));
    assert!(!stalled(&live, NOW));

    let quiet = from_parts(&steady, Some(NOW - 5 * SECOND));
    assert!(stalled(&quiet, NOW));
}

#[test]
fn nothing_is_stalled_before_two_gaps() {
    assert!(!stalled(&Cadence::default(), NOW));
    let one_gap = from_parts(&[1], Some(NOW));
    assert!(!stalled(&one_gap, NOW));
    // Whatever the verdict.
    assert!(!one_gap.stalled(NOW + 60 * SECOND, true));
}

#[test]
fn record_returns_a_gap_only_when_it_is_an_outlier() {
    let mut cadence = Cadence::default();
    // A steady one-second cadence: mean 1, no spread.
    for i in 0..5u128 {
        assert_eq!(arrive(&mut cadence, NOW + i * SECOND), None);
    }

    // An eleven-second jump is an outlier and comes back as the gap.
    let resumed = NOW + 15 * SECOND;
    assert_eq!(arrive(&mut cadence, resumed), Some(11 * SECOND));

    // A one-second step after it is ordinary again.
    assert_eq!(arrive(&mut cadence, resumed + SECOND), None);
}

#[test]
fn a_sub_second_gap_is_never_a_stall() {
    let mut cadence = Cadence::default();
    // A fast, near-metronomic cadence: 30ms gaps.
    for i in 0..10u128 {
        arrive(&mut cadence, NOW + i * 30_000_000);
    }

    // A 300ms gap is many times the mean -- a statistical outlier -- but under
    // the floor, so it is jitter, not a connection gap.
    let bumped = NOW + 9 * 30_000_000 + 300_000_000;
    assert_eq!(arrive(&mut cadence, bumped), None);
}

/// The rate decays through a silence, and is sampled once a second
#[test]
fn a_tick_ages_arrivals_and_samples_the_rate() {
    let mut cadence = Cadence::default();
    cadence.tick(NOW, false);
    assert_eq!(cadence.samples.len(), 1);
    assert_eq!((cadence.samples[0].arrivals, cadence.samples[0].stalled), (0, false));

    cadence.record(NOW, false);
    cadence.record(NOW + SECOND, false);
    cadence.tick(NOW + SECOND - 1, false);
    assert_eq!(cadence.samples.len(), 1);
    cadence.tick(NOW + SECOND, false);
    assert_eq!(cadence.samples.len(), 2);
    assert_eq!((cadence.samples[1].arrivals, cadence.samples[1].window), (2, SECOND));

    // An arrival counts for five seconds and no longer.
    cadence.tick(NOW + 5 * SECOND, false);
    assert_eq!(cadence.arrivals.len(), 2);
    cadence.tick(NOW + 5 * SECOND + 1, false);
    assert_eq!(cadence.arrivals.len(), 1);

    for second in 10..400u128 {
        cadence.tick(NOW + second * SECOND, false);
    }
    assert_eq!(cadence.samples().len(), RATE_SAMPLES);
    assert_eq!(cadence.arrivals.len(), 0);
}

// The window's state.

fn sent(live: bool) -> Envelope {
    let mut envelope = envelope("https://eddn.edcd.io/schemas/journal/1");
    envelope.header.uploader_id = "cmdr".to_owned();
    envelope.live = live;
    envelope
}

#[test]
fn test_mode_starts_on_the_test_galaxy() {
    // Test data is asked for to be watched, so that is what shows first.
    let app = App::new(true, DEFAULT_CAPACITY);
    assert_eq!(app.view, Galaxy::TEST);
}

#[test]
fn without_test_mode_every_row_shows() {
    // Only live events arrive, so the galaxy filter admits all of them.
    let app = App::new(false, DEFAULT_CAPACITY);
    assert_eq!(app.view, Galaxy::ALL);
}

#[test]
fn drain_moves_updates_into_the_feed() {
    let mut app = App::new(false, DEFAULT_CAPACITY);

    assert!(app.drain(Received::Envelope(sent(true)), NOW, false));
    assert!(app.drain(Received::Envelope(sent(false)), NOW, false));
    assert!(!app.drain(Received::Empty, NOW, false));

    // Both envelopes counted and kept, and the arrivals recorded in the
    // cadence.
    assert_eq!(app.feed.received(), 2);
    assert_eq!(app.feed.retained(), 2);
    assert!(app.cadence.last().is_some());
    assert!(app.cadence.sample(NOW, false).arrivals > 0);
}

#[test]
fn a_dropped_worker_channel_stops_the_stream() {
    let mut app = App::new(false, DEFAULT_CAPACITY);

    assert!(!app.drain(Received::Disconnected, NOW, false));

    assert!(app.stream_ended);
}

#[test]
fn a_single_message_reads_live_not_connecting() {
    let mut app = App::new(false, DEFAULT_CAPACITY);

    // Connecting only holds while nothing has arrived.
    assert_eq!(app.connection(NOW, false), Connection::Connecting);

    // One message is enough to leave it.
    app.drain(Received::Envelope(sent(true)), NOW, false);
    app.drain(Received::Empty, NOW, false);
    assert_eq!(app.connection(NOW, false), Connection::Online);
}

#[test]
fn connection_reflects_stream_and_cadence() {
    let mut app = App::new(false, DEFAULT_CAPACITY);
    let health = |app: &App| {
        let quiet = app.cadence.gap(NOW);
        app.connection(NOW, quiet.is_some_and(|quiet| outlier(&app.cadence, quiet)))
    };

    // No message yet: still coming up.
    assert_eq!(health(&app), Connection::Connecting);

    // A steady 1s cadence, last message just now: live.
    let steady = [1, 1, 1, 1];
    app.cadence = from_parts(&steady, Some(NOW));
    assert_eq!(health(&app), Connection::Online);

    // The same cadence gone quiet for 5s: an outlier, so stalling.
    app.cadence = from_parts(&steady, Some(NOW - 5 * SECOND));
    assert_eq!(health(&app), Connection::Stalling);

    // A dead stream wins over everything else.
    app.stream_ended = true;
    assert_eq!(health(&app), Connection::Stopped);
    assert_eq!(health(&app).label(), "stopped");
    assert_eq!(health(&app).tooltip(), "the stream stopped; the feed is frozen");
}

/// A stall marks the row the feed resumed at
#[test]
fn a_stall_marks_the_row_that_ends_it() {
    let mut app = App::new(false, DEFAULT_CAPACITY);
    for second in 0..5u128 {
        app.drain(Received::Envelope(sent(true)), NOW + second * SECOND, false);
    }
    app.drain(Received::Envelope(sent(true)), NOW + 15 * SECOND, true);
    let rows = app.feed.rows();
    assert_eq!(rows[4].gap, None);
    assert_eq!(rows[5].gap, Some(11 * SECOND));
    assert_eq!(gap_text(11 * SECOND), "connection gap 11s");
}

#[test]
fn a_frame_is_begun_once() {
    let mut app = App::new(false, DEFAULT_CAPACITY);
    app.click(Click::Follow);
    assert!(app.begin(1));
    assert!(!app.follow_latest);
    app.click(Click::Follow);
    // A second pass over the same frame keeps what was asked in it.
    assert!(!app.begin(1));
    assert!(app.follow_latest);
    assert!(app.begin(2));
}

#[test]
fn what_is_clicked_is_remembered() {
    let mut app = App::new(false, DEFAULT_CAPACITY);
    app.click(Click::Log);
    assert!(app.show_log);
    app.click(Click::Log);
    assert!(!app.show_log);
    app.click(Click::Count);
    assert!(app.show_log);
    app.click(Click::CloseLog);
    assert!(!app.show_log);
    app.click(Click::Row("a row".to_owned()));
    assert_eq!(app.selected.as_deref(), Some("a row"));
    app.click(Click::CloseDetail);
    assert_eq!(app.selected, None);
}

#[test]
fn the_status_bar_says_what_stands() {
    let mut app = App::new(false, DEFAULT_CAPACITY);
    app.local_time = false;
    let wall = Moment::new(1_786_190_400, 0).unwrap();
    let bar = app.status_bar(wall, NOW, false, 0, 0);
    assert_eq!(bar.clock, "2026-08-08 12:00:00Z");
    assert_eq!(bar.connection, Connection::Connecting);
    assert_eq!((bar.errors, bar.warnings, bar.span), (None, None, None));
    assert_eq!(bar.received, "received 0");

    app.drain(Received::Envelope(sent(true)), NOW, false);
    let mut later = sent(true);
    later.schema_ref = "https://eddn.edcd.io/schemas/commodity/3".to_owned();
    later.header.gateway_timestamp = Moment::new(1_600_000_161, 900_000_000).unwrap();
    app.drain(Received::Envelope(later), NOW, false);
    let bar = app.status_bar(wall, NOW, false, 3, 1);
    assert_eq!(bar.errors.as_deref(), Some("errors 3"));
    assert_eq!(bar.warnings.as_deref(), Some("warnings 1"));
    assert_eq!(bar.span.as_deref(), Some("span 2m41s"));
    assert_eq!(bar.received, "received 2");
    assert_eq!(bar.per_schema, vec!["     1  commodity", "     1  journal"]);
    assert_eq!(bar.software, "software 1");
    assert_eq!(bar.per_software, vec!["     2  test"]);
}

// The table.

/// Rows as the table holds them, sequence numbers with a stand-in payload
fn rows(seqs: &[u64]) -> Vec<(u64, ())> {
    seqs.iter().map(|&seq| (seq, ())).collect()
}

/// The pixel offset that puts an anchored message back where it was.
fn anchor_offset(rows: &[(u64, ())], seq: u64, remainder: f32, pitch: f32) -> f32 {
    anchor_row(rows, seq) as f32 * pitch + remainder
}

/// The message at the top of the view, and the pixels scrolled past it.
fn scrolled_to(rows: &[(u64, ())], offset: f32, max: f32, pitch: f32) -> Option<(u64, f32)> {
    let (seq, top) = top_anchor(rows, offset >= max - 1.0, (offset / pitch) as usize)?;
    Some((seq, offset - top as f32 * pitch))
}

#[test]
fn anchor_holds_a_message_still_as_the_ring_evicts() {
    let pitch = 22.0;
    // Message 12 sits third from the top, five pixels scrolled past it.
    let before = rows(&[10, 11, 12, 13, 14]);
    assert_eq!(anchor_offset(&before, 12, 5.0, pitch), 2.0 * pitch + 5.0);

    // Two arrivals drop 10 and 11; 12 is now the top row. The offset falls by
    // exactly those two rows, so 12 stays where it was on screen.
    let after = rows(&[12, 13, 14, 15, 16]);
    assert_eq!(anchor_offset(&after, 12, 5.0, pitch), 5.0);
}

#[test]
fn anchor_to_an_evicted_message_lands_at_the_top() {
    // Message 8 is already gone; nothing to hold, so the view sits at the
    // oldest kept row.
    let after = rows(&[12, 13, 14, 15, 16]);
    assert_eq!(anchor_offset(&after, 8, 3.0, 22.0), 3.0);
}

/// The row at the top is found again as newer rows come and older ones go
#[test]
fn an_anchored_row_is_found_again() {
    let rows: Vec<(u64, ())> = (10..30).map(|seq| (seq, ())).collect();
    for scrolled in [0usize, 7, 19, 40] {
        let (seq, top) = top_anchor(&rows, false, scrolled).expect("an anchor");
        assert_eq!((seq, top), (10 + scrolled.min(19) as u64, scrolled.min(19)));
        for evicted in [0usize, 1, 7, 8, 25] {
            let later: Vec<(u64, ())> = (10..45).skip(evicted).map(|seq| (seq, ())).collect();
            assert_eq!(anchor_row(&later, seq), top.saturating_sub(evicted));
        }
    }
}

#[test]
fn top_anchor_reads_the_top_row_and_its_remainder() {
    let pitch = 22.0;
    let view = rows(&[12, 13, 14, 15, 16]);
    // Scrolled 49px down a 200px-tall content: two whole rows and 5 over, so
    // message 14 is at the top with a five-pixel remainder.
    assert_eq!(scrolled_to(&view, 49.0, 200.0, pitch), Some((14, 5.0)));
}

#[test]
fn top_anchor_is_none_within_a_pixel_of_the_bottom() {
    let view = rows(&[12, 13, 14, 15, 16]);
    // At and just shy of the furthest scroll: tailing, no anchor.
    assert_eq!(scrolled_to(&view, 100.0, 100.0, 22.0), None);
    assert_eq!(scrolled_to(&view, 99.5, 100.0, 22.0), None);
    // A row up from the bottom: scrolled away, so anchored.
    assert!(scrolled_to(&view, 95.0, 100.0, 22.0).is_some());
}

#[test]
fn top_anchor_is_none_for_an_empty_view() {
    assert_eq!(scrolled_to(&[], 0.0, 0.0, 22.0), None);
    assert_eq!(top_anchor::<()>(&[], false, 22), None);
}

#[test]
fn delta_shows_the_span_and_its_sign() {
    // Gateway later than the event: how long it took to arrive.
    assert_eq!(format_delta(Span { secs: 161, nanos: 0 }), "2m41s");
    assert_eq!(format_delta(Span { secs: 0, nanos: 0 }), "0s");
    // A sender's clock running ahead reads as negative, not floored to 0s.
    assert_eq!(format_delta(Span { secs: -3, nanos: 0 }), "-3s");
}

#[test]
fn spans_take_their_two_largest_units() {
    assert_eq!(format_span(Span { secs: -3, nanos: 0 }), "0s");
    assert_eq!(format_span(Span { secs: 59, nanos: 0 }), "59s");
    assert_eq!(format_span(Span { secs: 60, nanos: 0 }), "1m0s");
    assert_eq!(format_span(Span { secs: 3_599, nanos: 0 }), "59m59s");
    assert_eq!(format_span(Span { secs: 3_661, nanos: 0 }), "1h1m");
    assert_eq!(format_delta(Span { secs: -7_260, nanos: 0 }), "-2h1m");
    assert_eq!(gap_text(u128::MAX), "connection gap 0s");
}

#[test]
fn the_delta_column_ships_present_but_off() {
    let column = default_columns(false)
        .into_iter()
        .find(|c| c.field == Field::Delta)
        .expect("delta column offered");
    assert!(!column.visible);
}

/// The live dot is offered only where test data is, and hidden columns are not
/// drawn
#[test]
fn columns_are_drawn_in_order() {
    let without = shown(&default_columns(false));
    assert!(!without.contains(&Field::Live));
    let with = shown(&default_columns(true));
    assert!(with.contains(&Field::Live));
    assert!(!with.contains(&Field::JournalTime));
    assert_eq!(with.len(), without.len() + 1);
    for field in with {
        assert!(default_columns(true).iter().any(|c| c.field == field && c.visible));
    }
}

#[test]
fn a_cell_shows_what_its_column_reads() {
    let mut jump = journal(
        r#"{
            "timestamp": "2020-09-13T12:26:37Z",
            "event": "FSDJump",
            "SystemAddress": 1,
            "StarSystem": "Sol"
        }"#,
    );
    jump.body = Some("Sol 3".to_owned());
    let fixed = |field: Field| match field.cell(&jump, false) {
        Cell::Fixed(text) => text,
        other => panic!("{:?}", other),
    };
    assert_eq!(fixed(Field::GatewayTime), "2020-09-13 12:26:40Z");
    assert_eq!(fixed(Field::JournalTime), "2020-09-13 12:26:37Z");
    assert_eq!(fixed(Field::Delta), "3s");
    assert!(matches!(Field::Live.cell(&jump, false), Cell::Dot(true)));
    assert!(matches!(Field::Event.cell(&jump, false), Cell::Tinted(text) if text == "FsdJump"));
    assert!(matches!(Field::Schema.cell(&jump, false), Cell::Tinted(text) if text == "journal"));
    assert!(matches!(Field::Body.cell(&jump, false), Cell::Plain(text) if text == "Sol 3"));
    assert!(matches!(Field::Station.cell(&jump, false), Cell::Plain(text) if text.is_empty()));
    assert_eq!(Field::System.text(&jump).as_deref(), Some("Sol"));
    assert_eq!(Field::Delta.text(&jump), None);

    let silent = envelope("nonsense");
    assert!(matches!(Field::Delta.cell(&silent, true), Cell::Fixed(text) if text.is_empty()));
    assert!(matches!(Field::JournalTime.cell(&silent, true), Cell::Fixed(text) if text.is_empty()));
}

#[test]
fn a_header_carries_the_running_count() {
    let mut feed = Feed::default();
    feed.push(journal(
        r#"{
            "timestamp": "2020-01-01T00:00:00Z",
            "event": "FSDJump",
            "SystemAddress": 1,
            "StarSystem": "Sol"
        }"#,
    ));
    assert_eq!(Field::System.header(&feed, Galaxy::ALL), "systems (1)");
    assert_eq!(Field::System.header(&feed, Galaxy::TEST), "systems (0)");
    assert_eq!(Field::Live.header(&feed, Galaxy::ALL), "");
    assert_eq!(Field::Schema.header(&feed, Galaxy::ALL), "schema");
}

/// A row is listed where the galaxy shows it and the filter finds it, under the
/// number it was pushed as
#[test]
fn rows_are_listed_by_galaxy_and_filter() {
    let mut feed = Feed::new(3);
    for (n, live) in [true, false, true, false].into_iter().enumerate() {
        let mut envelope = sent(live);
        envelope.star_system = Some(format!("System {n}"));
        feed.push(envelope);
    }
    let seqs = |view: Galaxy, filter: &str| -> Vec<u64> {
        list(&feed, view, filter).iter().map(|row| row.seq).collect()
    };
    // The oldest is gone, and those left keep their numbers.
    assert_eq!(seqs(Galaxy::ALL, ""), vec![1, 2, 3]);
    assert_eq!(seqs(Galaxy::LIVE, ""), vec![2]);
    assert_eq!(seqs(Galaxy::TEST, ""), vec![1, 3]);
    // Case is nothing to the filter.
    assert_eq!(seqs(Galaxy::ALL, "SYSTEM 3"), vec![3]);
    assert_eq!(seqs(Galaxy::LIVE, "system 3"), Vec::<u64>::new());

    let mut app = App::new(false, 3);
    app.feed = feed;
    app.filter = "system 2".to_owned();
    let table = app.feed_list();
    assert_eq!(table.rows.len(), 1);
    assert_eq!(table.rows[0].envelope.star_system.as_deref(), Some("System 2"));
    assert_eq!(table.shown.len(), table.headers.len());
}

// The colours.

#[test]
fn kindred_names_share_a_colour_group() {
    // A bare event and its dressed-up kin share a substring, not a prefix, yet
    // group together all the same.
    assert_eq!(category_group("Scan"), category_group("FSSDiscoveryScan"));
    assert_eq!(category_group("Scan"), category_group("SAAScanComplete"));
    // A jump and a dock share no word at all, but both are travel.
    assert_eq!(category_group("FSDJump"), category_group("Docked"));
    // Unrelated kinds keep their distance.
    assert_ne!(category_group("Scan"), category_group("Bounty"));
}

/// The hue of a category cell, which alone tells its tint apart.
fn hue(key: &str) -> Option<u32> {
    group_hue(category_group(key))
}

#[test]
fn schema_families_take_the_cluster_colours() {
    // A lower-case schema family colours like its kindred event: the scanner
    // schemas green, a commodity schema like a commodity.
    assert_eq!(category_group("fssdiscoveryscan"), category_group("Scan"));
    assert_eq!(category_group("fssbodysignals"), category_group("Scan"));
    assert_eq!(category_group("commodity"), category_group("Commodity"));
    // The journal schema keeps a colour of its own, apart from the scans it
    // carries.
    assert_ne!(hue("journal"), hue("fssdiscoveryscan"));
}

#[test]
fn a_hue_bands_a_group_and_the_unplaceable_have_none() {
    assert_eq!(hue("FSDJump"), hue("Docked"));
    assert_ne!(hue("FSDJump"), hue("Commodity"));
    assert_ne!(hue("Commodity"), hue("Scan"));
    assert_eq!(hue("Scan"), Some(33));
    assert_eq!(hue("Commodity"), Some(70));
    assert_eq!(hue("FSDJump"), Some(50));
    assert_eq!(hue("Unmodeled"), None);
    assert_eq!(hue("some_future_schema"), None);
}

// The detail and the log.

#[test]
fn the_detail_leads_with_who_sent_it() {
    let mut sent = envelope("https://eddn.edcd.io/schemas/odd/1");
    sent.star_system = Some("Sol".to_owned());
    sent.version = Some("1".to_owned());
    sent.live = false;
    assert_eq!(
        detail(&sent),
        "schema:   https://eddn.edcd.io/schemas/odd/1\n\
         live:     false\n\
         system:   Sol\n\
         version:  1\n\
         software: test 0\n\
         uploader: someone\n\
         gateway:  2020-09-13T12:26:40+00:00\n\
         \n\
         {}\n",
    );
    sent.message = Message::Unmodeled(serde_json::from_str(r#"{"a": [1, "b"]}"#).unwrap());
    assert!(detail(&sent).ends_with("\n\n{\n  \"a\": [\n    1,\n    \"b\"\n  ]\n}\n"));
}

/// A payload read is shown as it is held, inside what it was read as
#[test]
fn a_payload_read_is_shown_inside_its_variant() {
    let jump = journal(
        r#"{
            "timestamp": "2020-01-01T00:00:00Z",
            "event": "FSDJump",
            "SystemAddress": 1,
            "StarSystem": "Sol"
        }"#,
    );
    let Message::Journal(read) = &jump.message else { panic!("not a journal entry") };
    let rendered = format!("{:#?}", read.entry);
    let shown = detail(&jump);
    assert_eq!(shown, detail_with(&jump, &rendered));
    let payload = shown.split_once("\n\n").expect("a payload").1;
    let indented: Vec<String> = rendered.lines().map(|line| format!("    {line}")).collect();
    assert_eq!(payload, format!("Journal(\n{},\n)\n", indented.join("\n")));
}

/// The listings are shown each inside its own variant
#[test]
fn a_listing_is_shown_inside_its_variant() {
    fn shown(schema_ref: &str, message: Message, rendered: String) -> (String, String) {
        let text = detail(&bare(schema_ref, message));
        let payload = text.split_once("\n\n").expect("a payload").1.to_owned();
        let lines: Vec<String> = rendered.lines().map(|line| format!("    {line}")).collect();
        (payload, lines.join("\n"))
    }

    let station = r#""timestamp": "2020-01-01T00:00:00Z", "systemName": "Sol", "stationName": "Hub""#;
    let value = |rest: &str| serde_json::from_str(&format!("{{{station}, {rest}}}")).unwrap();

    let read = read_commodity(&value(r#""marketId": 6, "commodities": []"#)).expect("a market");
    let rendered = format!("{:#?}", read.entry);
    let (payload, lines) = shown("x", Message::Commodity(read), rendered);
    assert_eq!(payload, format!("Commodity(\n{lines},\n)\n"));

    let read = read_outfitting(&value(r#""marketId": 6, "modules": []"#)).expect("a bay");
    let rendered = format!("{:#?}", read.entry);
    let (payload, lines) = shown("x", Message::Outfitting(read), rendered);
    assert_eq!(payload, format!("Outfitting(\n{lines},\n)\n"));

    let read = read_shipyard(&value(r#""marketId": 6, "ships": []"#)).expect("a shipyard");
    let rendered = format!("{:#?}", read.entry);
    let (payload, lines) = shown("x", Message::Shipyard(read), rendered);
    assert_eq!(payload, format!("Shipyard(\n{lines},\n)\n"));

    let black = value(r#""name": "Gold", "sellPrice": 1, "prohibited": false"#);
    let read = read_black_market(&black).expect("a sale");
    let rendered = format!("{:#?}", read.entry);
    let (payload, lines) = shown("x", Message::BlackMarket(read), rendered);
    assert_eq!(payload, format!("BlackMarket(\n{lines},\n)\n"));
}

fn said(level: Level, message: &str) -> LogLine {
    LogLine {
        level,
        target: "eddn".to_owned(),
        message: message.to_owned(),
        at: Moment::new(45_296, 0).unwrap(),
    }
}

#[test]
fn the_log_is_bounded_and_counts_trouble() {
    let mut log = LogBuffer::default();
    for n in 0..CAPACITY + 2 {
        log.push(said(Level::INFO, &n.to_string()));
    }
    log.push(said(Level::WARN, "hm"));
    log.push(said(Level::ERROR, "oh"));
    let lines = log.snapshot();
    assert_eq!(lines.len(), CAPACITY);
    assert_eq!(lines[0].message, "4");
    assert_eq!(lines[CAPACITY - 1].message, "oh");
    assert_eq!((log.errors(), log.warnings()), (1, 1));
    log.clear_errors();
    assert_eq!((log.errors(), log.warnings()), (0, 1));
    log.clear_warnings();
    assert_eq!((log.errors(), log.warnings()), (0, 0));
}

#[test]
fn a_log_line_leads_with_its_sentence() {
    let mut visitor = EventVisitor::new();
    visitor.record_debug("url", "\"tcp://here\"");
    visitor.record_debug("message", "subscribed");
    visitor.record_debug("stall", "120s");
    assert_eq!(visitor.line(), "subscribed url=\"tcp://here\" stall=120s");
    assert_eq!(line_text(&said(Level::WARN, "hm")), "12:34:56Z   WARN  eddn  hm");
    assert_eq!(pad("toolong", 3), "toolong");
    assert_eq!(pad("\u{e9}", 3), "  \u{e9}");
}
