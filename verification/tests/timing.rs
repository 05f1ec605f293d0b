//! The connection's timing: stalls, reports, retention windows and tallies.

use eddn::connection::{elapsed, options, Stall, PING_INTERVAL, SECOND};
use eddn::progress::{Progress, TALLY};
use eddn::reporter::{Happening, Level, Reporter, WARN_INTERVAL};
use eddn::window::window;
use omq_tokio::ReconnectPolicy;
use std::time::Duration;

/// A window is spelled the way an operator would say it
#[test]
fn a_window_reads_as_a_person_writes_it() {
    assert_eq!(window("48h"), Ok(48 * 3600));
    assert_eq!(window("7d"), Ok(7 * 86_400));
    assert_eq!(window("90m"), Ok(5_400));
    assert_eq!(window("30s"), Ok(30));
    assert_eq!(window("3600"), Ok(3600));
    assert!(window("a while").is_err());
    assert!(window("48hours").is_err());
}

#[test]
fn a_window_that_is_none_says_so() {
    assert_eq!(window(""), Err("\"\" is not a window like 48h or 7d".to_owned()));
    assert_eq!(window("h"), Err("\"h\" is not a window like 48h or 7d".to_owned()));
    assert_eq!(window("a \"while\""), Err(format!("{:?} is not a window like 48h or 7d", "a \"while\"")));
    assert_eq!(window("99999999999999999d"), Err("\"99999999999999999d\" is longer than time".to_owned()));
    assert_eq!(window("18446744073709551615"), Ok(u64::MAX));
    assert_eq!(window("+5m"), Ok(300));
    assert_eq!(window("5\u{e9}"), Err("\"5\u{e9}\" is not a window like 48h or 7d".to_owned()));
}

/// Covers a gateway that stops publishing, which nothing else notices.
#[test]
fn quiet_for_longer_than_the_stall_timeout_is_an_overrun() {
    let now = 1_000 * SECOND;
    let mut stall = Stall::new(30 * SECOND, now);
    assert!(stall.overrun(now).is_none());

    // One second short of it is still quiet worth waiting out.
    stall.quiet_since = now - 29 * SECOND;
    assert!(stall.overrun(now).is_none());

    stall.quiet_since = now - 31 * SECOND;
    assert_eq!(stall.overrun(now).map(|quiet| quiet / SECOND), Some(31));

    // A message, or a connection replaced, and the count starts over.
    stall.restart(now);
    assert!(stall.overrun(now).is_none());
}

/// Covers a connection that dies without closing. Only a written ping going
/// unanswered turns that into something the socket can see.
#[test]
fn a_connection_pings_and_gives_up_on_an_unanswered_one() {
    let options = options();

    // Unset means no pings at all, which is what leaves a dead connection
    // looking like a quiet one.
    assert_eq!(options.heartbeat_interval, Some(Duration::from_secs(PING_INTERVAL)));

    // Long enough to send a ping, then long enough to give up waiting on an
    // answer: the 15 seconds these two are documented to come to.
    let ivl = options.heartbeat_interval.unwrap();
    let timeout = options.heartbeat_timeout.unwrap();
    assert_eq!(ivl + timeout, Duration::from_secs(15));
}

/// Covers a connection that closes, which is rebuilt on its own, and how hard it
/// tries while the gateway is away.
#[test]
fn a_connection_retries_from_the_floor_and_no_slower_than_the_ceiling() {
    match options().reconnect {
        ReconnectPolicy::Exponential { min, max } => {
            assert!(
                min >= Duration::from_secs(1),
                "the floor is the rate, and it is {:?}",
                min
            );
            assert!(max >= min);
            assert_eq!((min, max), (Duration::from_secs(1), Duration::from_secs(15)));
        }
        policy => panic!(
            "a connection that closes wants rebuilding, and this is {:?}",
            policy
        ),
    }
}

/// The timeout itself is too long, and a clock that runs back has not moved
#[test]
fn an_overrun_begins_at_the_timeout() {
    let stall = Stall::new(30 * SECOND, 5);
    assert_eq!(stall.timeout(), 30 * SECOND);
    assert_eq!(stall.overrun(30 * SECOND + 4), None);
    assert_eq!(stall.overrun(30 * SECOND + 5), Some(30 * SECOND));
    assert_eq!(stall.overrun(0), None);
    assert_eq!(elapsed(3, 7), 0);
}

/// A connection lost, however it was lost.
fn lost() -> Happening {
    Happening::Disconnected("PeerClosed".to_owned())
}

/// A connection made, which is what ends one being lost.
fn found() -> Happening {
    Happening::Connected
}

#[test]
fn losing_a_connection_over_and_over_is_reported_once_an_interval() {
    let now = 1_000 * SECOND;
    let mut reporter = Reporter::default();

    // The first loss is worth saying, and so is the recovery ending it. The
    // loss is trouble, the recovery is only news.
    let said = reporter.observe(&vec![lost(), found()], now);
    assert_eq!(said.len(), 2);
    assert_eq!(said[0].level, Level::WARN);
    assert!(said[0].message.starts_with("Connection lost"));
    assert_eq!(said[1].level, Level::INFO);
    assert!(said[1].message.starts_with("Connected again"));

    // Losing it again immediately is not, however many times.
    for _ in 0..50 {
        assert!(reporter.observe(&vec![lost(), found()], now).is_empty());
    }

    // Once the interval has passed, one report covers what it missed.
    let said = reporter.observe(&vec![lost()], now + WARN_INTERVAL);
    assert_eq!(said.len(), 1);
    assert!(said[0].message.contains("50 more went unreported"), "{}", said[0].message);
}

#[test]
fn a_connection_coming_back_is_reported_only_if_its_loss_was() {
    let now = 1_000 * SECOND;
    let mut reporter = Reporter::default();

    // Spend the interval on a loss that is reported.
    assert_eq!(reporter.observe(&vec![lost()], now).len(), 1);
    assert_eq!(reporter.observe(&vec![found()], now).len(), 1);

    // The next loss is throttled away, so its recovery goes too rather than
    // arriving on its own with no loss to explain it.
    assert!(reporter.observe(&vec![lost()], now).is_empty());
    assert!(reporter.observe(&vec![found()], now).is_empty());
}

#[test]
fn a_connection_replaced_by_hand_is_not_waiting_on_a_recovery() {
    let now = 1_000 * SECOND;
    let mut reporter = Reporter::default();

    assert_eq!(reporter.observe(&vec![lost()], now).len(), 1);
    reporter.replaced();

    // The new connection's first `Connected` belongs to it, not to the loss
    // the old one was in the middle of.
    assert!(reporter.observe(&vec![found()], now).is_empty());
}

#[test]
fn what_is_said_of_a_connection_is_said_in_words() {
    let mut reporter = Reporter::default();
    let said = reporter.observe(&vec![lost()], 5 * SECOND);
    assert_eq!(said[0].message, "Connection lost (PeerClosed), retrying every 1 to 15 seconds");
    // A connection already lost is lost once.
    assert!(reporter.observe(&vec![lost(), Happening::Other], 6 * SECOND).is_empty());
    let said = reporter.observe(&vec![found()], 12 * SECOND);
    assert_eq!(said[0].message, "Connected again, 7s without one");

    let failed = || Happening::HandshakeFailed("no greeting".to_owned());
    assert!(reporter.observe(&vec![failed(), failed()], 20 * SECOND).is_empty());
    let said = reporter.observe(&vec![failed(), failed()], 35 * SECOND);
    assert_eq!(said.len(), 1);
    assert_eq!(said[0].level, Level::WARN);
    assert_eq!(said[0].message, "Handshake did not finish: no greeting (2 more went unreported)");
    assert_eq!(reporter.unwarned, 1);
}

#[test]
fn a_recorder_says_what_it_has_taken_once_a_minute() {
    let mut progress = Progress::new(10);
    progress.take(100);
    progress.take(28);
    assert_eq!(progress.due(TALLY + 9), None);
    assert_eq!(progress.due(TALLY + 10), Some((2, 128)));
    assert_eq!(progress.due(TALLY + 11), None);
    progress.take(1);
    assert_eq!(progress.due(2 * TALLY + 10), Some((3, 129)));
}
