//! Texts, moments and errors.

use chrono::{DateTime, Local, NaiveDateTime, Utc};
use eddn::error::{Error, Failure, Inflation, NEAR, SHOWN};
use eddn::moment::{
    clock_text, format_time, hour_text, read_moment, read_second, rfc3339_text, Moment, Span,
    FIRST_SECOND, LAST_SECOND,
};
use eddn::text::{
    contains, decimal_text, find, has_text, insert_in_order, is_white, less, parse_number,
    part_after, part_before, same, slice, split_after, strip_suffix, to_ascii_small, words,
};

#[test]
fn numbers_read_as_they_are_written() {
    assert_eq!(parse_number("48"), Some(48));
    assert_eq!(parse_number("+48"), Some(48));
    assert_eq!(parse_number(""), None);
    assert_eq!(parse_number("+"), None);
    assert_eq!(parse_number("18446744073709551615"), Some(u64::MAX));
    assert_eq!(parse_number("18446744073709551616"), None);
    assert_eq!(parse_number("4 8"), None);
    for text in ["0", "007", "-1", "1_0", "\u{661}", "99999999999999999999", "++1", "1+"] {
        assert_eq!(parse_number(text), text.parse::<u64>().ok(), "{text}");
    }
    for n in [0u128, 9, 10, 65_536, u64::MAX as u128, u128::MAX] {
        assert_eq!(decimal_text(n), n.to_string());
    }
}

#[test]
fn white_space_is_what_unicode_says() {
    for c in '\0'..=char::MAX {
        assert_eq!(is_white(c), c.is_whitespace(), "{c:?}");
    }
}

#[test]
fn texts_are_searched_and_compared_as_they_are() {
    let all = ["", "a", "ab", "aba", "b", "\u{e9}", "z\u{e9}", "\u{1f600}", "\u{ffff}", "Z"];
    for a in all {
        for b in all {
            assert_eq!(less(a, b), a < b, "{a:?} {b:?}");
            assert_eq!(same(a, b), a == b);
            assert_eq!(contains(a, b), a.contains(b), "{a:?} {b:?}");
            assert_eq!(strip_suffix(a, b).as_deref(), a.strip_suffix(b));
            assert_eq!(split_after(a, b), a.split_once(b).map(|(_, rest)| rest), "{a:?} {b:?}");
        }
        assert_eq!(part_before(a, 'b'), a.split('b').next().unwrap());
        assert_eq!(part_after(a, 'b'), a.split_once('b').map(|(_, rest)| rest));
        assert_eq!(to_ascii_small(a), a.to_ascii_lowercase());
    }
    assert_eq!(find("\u{e9}ab", "b"), Some(2));
    assert_eq!(find("\u{e9}ab", "c"), None);
    assert_eq!(slice("z\u{e9}a", 1, 3), "\u{e9}");
}

#[test]
fn words_are_what_white_space_leaves() {
    for text in ["", "  ", "a", " a  b\tc\n", "\u{a0}x\u{2003}y\u{85}z", "a\u{200b}b"] {
        assert_eq!(words(text), text.split_whitespace().collect::<Vec<_>>(), "{text:?}");
    }
}

#[test]
fn texts_are_kept_in_order() {
    let mut held: Vec<String> = Vec::new();
    for text in ["b", "a", "c", "b"] {
        insert_in_order(&mut held, text.to_owned());
    }
    assert_eq!(held, vec!["a", "b", "b", "c"]);
    assert!(has_text(&held, "c"));
    assert!(!has_text(&held, "d"));
}

fn at(text: &str) -> Moment {
    let at: DateTime<Utc> = text.parse().expect("a moment");
    Moment::new(at.timestamp(), at.timestamp_subsec_nanos()).expect("a moment")
}

/// Moments run as far as the calendar does, and no further
#[test]
fn moments_span_the_calendar() {
    assert_eq!(DateTime::<Utc>::MIN_UTC.timestamp(), FIRST_SECOND);
    assert_eq!(DateTime::<Utc>::MAX_UTC.timestamp(), LAST_SECOND);
    for (secs, nanos) in [
        (FIRST_SECOND, 0),
        (FIRST_SECOND - 1, 0),
        (LAST_SECOND, 999_999_999),
        (LAST_SECOND + 1, 0),
        (0, 999_999_999),
        (0, 1_000_000_000),
        (59, 1_000_000_000),
        (59, 1_999_999_999),
        (59, 2_000_000_000),
        (-1, 1_500_000_000),
        (-2, 1_500_000_000),
        (i64::MIN, 0),
        (i64::MAX, 0),
    ] {
        let theirs = DateTime::<Utc>::from_timestamp(secs, nanos).is_some();
        assert_eq!(Moment::new(secs, nanos).is_some(), theirs, "{secs} {nanos}");
    }
}

/// Nanoseconds and moments come to each other
#[test]
fn moments_come_to_nanoseconds_and_back() {
    for nanos in [i64::MIN, -1_000_000_001, -1, 0, 1, 1_700_000_000_123_456_789, i64::MAX] {
        let at = Moment::from_nanos(nanos);
        let theirs = DateTime::<Utc>::from_timestamp_nanos(nanos);
        assert_eq!((at.secs(), at.nanos()), (theirs.timestamp(), theirs.timestamp_subsec_nanos()));
        assert_eq!(at.timestamp_nanos(), Some(nanos));
    }
    for (secs, nanos) in [(LAST_SECOND, 0), (FIRST_SECOND, 0), (9_223_372_036, 854_775_808), (59, 1_999_999_999)] {
        let theirs = DateTime::<Utc>::from_timestamp(secs, nanos).unwrap().timestamp_nanos_opt();
        assert_eq!(Moment::new(secs, nanos).unwrap().timestamp_nanos(), theirs, "{secs} {nanos}");
    }
}

/// Moments are ordered and told apart as the calendar has them
#[test]
fn moments_are_apart_by_a_span() {
    let all = [(0i64, 0u32), (0, 1), (59, 0), (59, 1_500_000_000), (60, 0), (-1, 999_999_999), (FIRST_SECOND, 0), (LAST_SECOND, 0)];
    for (a, an) in all {
        for (b, bn) in all {
            let (x, y) = (Moment::new(a, an).unwrap(), Moment::new(b, bn).unwrap());
            let (tx, ty) = (
                DateTime::<Utc>::from_timestamp(a, an).unwrap(),
                DateTime::<Utc>::from_timestamp(b, bn).unwrap(),
            );
            assert_eq!(x.before(y), tx < ty);
            let theirs = tx - ty;
            assert_eq!(x.since(y), Span { secs: theirs.num_seconds(), nanos: theirs.subsec_nanos() });
        }
    }
    assert!(at("1970-01-01T00:00:01Z").before_nanos(1_000_000_001));
    assert!(!at("1970-01-01T00:00:01Z").before_nanos(1_000_000_000));
    assert_eq!(at("1970-01-01T00:00:01.5Z").since_epoch(), 1_500_000_000);
}

#[test]
fn a_time_reads_utc_with_a_z_and_local_without() {
    let when = at("2026-08-20T12:00:00Z");
    assert_eq!(format_time(when, false), "2026-08-20 12:00:00Z");
    // Local's digits depend on the machine's zone; the dropped Z does not.
    assert!(!format_time(when, true).ends_with('Z'));
    // It is the UTC text, less its Z, of a moment less than a day away.
    let local = format_time(when, true);
    let away = (-86_399..86_400).find(|away| {
        let there = Moment::new(when.secs() + away, when.nanos()).unwrap();
        format_time(there, false) == format!("{local}Z")
    });
    let offset = DateTime::<Utc>::from_timestamp(when.secs(), 0).unwrap();
    let offset = offset.with_timezone(&Local).offset().local_minus_utc();
    assert_eq!(away, Some(i64::from(offset)));
}

#[test]
fn a_time_is_spelled_for_each_use() {
    let when = at("2026-08-20T07:05:09.25Z");
    assert_eq!(hour_text(when), "2026082007");
    assert_eq!(clock_text(when), "07:05:09Z");
    assert_eq!(rfc3339_text(when), "2026-08-20T07:05:09.250+00:00");
    assert_eq!(rfc3339_text(at("2026-08-20T07:05:09Z")), "2026-08-20T07:05:09+00:00");
}

#[test]
fn a_time_is_read_as_it_is_spelled() {
    for text in ["2026-08-20T07:05:09Z", "2026-08-20 07:05:09.5 +02:00", "nonsense", "", "2026-08-20"] {
        let theirs: Option<DateTime<Utc>> = text.parse().ok();
        let ours = read_moment(text).map(|at| (at.secs(), at.nanos()));
        assert_eq!(ours, theirs.map(|at| (at.timestamp(), at.timestamp_subsec_nanos())), "{text}");
    }
    for text in ["20260919170000", "20260919240000", "2026091917", "", "x"] {
        let theirs = NaiveDateTime::parse_from_str(text, "%Y%m%d%H%M%S").ok().map(|at| at.and_utc().timestamp());
        assert_eq!(read_second(text).map(|at| at.secs()), theirs, "{text}");
    }
}

fn parse(line: usize, column: usize, json: &str) -> Error {
    let source = Failure { said: "it would not".to_owned(), line, column };
    Error::Parse { source, json: json.to_owned() }
}

/// The window around a place is snapped outward to whole characters
#[test]
fn the_window_is_taken_around_the_place() {
    let json = "x".repeat(200);
    assert_eq!(parse(1, 101, &json).near(), Some("x".repeat(2 * NEAR).as_str()));
    assert_eq!(parse(1, 1, &json).near(), Some("x".repeat(NEAR).as_str()));
    assert_eq!(parse(1, 0, &json).near(), Some("x".repeat(NEAR).as_str()));
    // Past the end of the text is the end of it.
    assert_eq!(parse(9, 900, &json).near(), Some("x".repeat(NEAR).as_str()));
    assert_eq!(parse(0, 5, &json).near(), None);

    // Each of these is two bytes, and the window widens over the halves.
    let accents = "\u{e9}".repeat(100);
    assert_eq!(parse(1, 101, &accents).near(), Some("\u{e9}".repeat(NEAR).as_str()));
    assert_eq!(parse(1, 102, &accents).near(), Some("\u{e9}".repeat(NEAR + 1).as_str()));
    // Of three bytes each, so up to two more are shown on either side.
    let wide = format!("a{}", "\u{4e16}".repeat(100));
    assert_eq!(parse(1, 100, &wide).near(), Some("\u{4e16}".repeat(41).as_str()));

    // A line is found by the newlines before it.
    let lines = format!("{}\n{}", "a".repeat(100), "b".repeat(100));
    assert_eq!(parse(2, 1, &lines).near(), Some(format!("{}\n{}", "a".repeat(59), "b".repeat(60)).as_str()));
}

#[test]
fn an_error_says_itself_in_words() {
    assert_eq!(Error::Socket("closed".to_owned()).said(), "socket: closed");
    assert_eq!(Error::Decompress(Inflation::Failed).said(), "decompress: Failed");
    assert_eq!(Error::Decompress(Inflation::BadParam).near(), None);
    assert_eq!(Error::Decompress(Inflation::BadParam).json(), None);
    assert_eq!(parse(1, 2, "{}").said(), "parse: it would not, near: {}");
    assert_eq!(parse(0, 0, "{}").said(), "parse: it would not, message: {}");
    assert_eq!(parse(0, 0, "{}").json(), Some("{}"));
    let long = "y".repeat(SHOWN + 1);
    assert_eq!(
        parse(0, 0, &long).said(),
        format!("parse: it would not, message: {}... ({} characters in all)", "y".repeat(SHOWN), SHOWN + 1),
    );
    // Cut only between characters, and counted in bytes.
    let accents = format!("y{}", "\u{e9}".repeat(1500));
    assert_eq!(
        parse(0, 0, &accents).said(),
        format!("parse: it would not, message: y{}... (3001 characters in all)", "\u{e9}".repeat(1000)),
    );
    let exact = "y".repeat(SHOWN);
    assert_eq!(parse(0, 0, &exact).said(), format!("parse: it would not, message: {exact}"));
}
