//! What a feed's totals and its window hold after whatever has gone through it.
//!
//! A [`Feed`](crate::gui::feed::Feed) says what each push does. Here the pushes
//! are followed one after another from a feed that was empty, with errors noted
//! and cleared among them: what the totals count is everything that was ever
//! pushed, and the window holds the last of it.

use crate::envelope::Envelope;
use crate::galaxy::Galaxy;
use crate::gui::feed::{key_of, named_by, searched, took, FeedView, RowView};
use crate::gui::tally::{by_name, count_of, sum, TallyView};
use crate::message::Message;
use crate::names::family_of;
use crate::text::lowered;
use vstd::prelude::*;

verus! {

/// One thing done to a feed
pub enum Doing {
    /// An envelope is pushed, after a gap where it followed a stall.
    Push { envelope: Envelope, gap: Option<u128> },
    /// An unreadable message is counted.
    NoteError,
    /// The unreadable messages are counted from none again.
    ClearErrors,
}

/// Whether a feed comes to another by something done to it.
pub open spec fn comes_to(before: FeedView, after: FeedView, doing: Doing) -> bool {
    match doing {
        Doing::Push { envelope, gap } => after.is_feed() && took(before, after, envelope, gap),
        Doing::NoteError => after == (FeedView { errors: before.errors + 1, ..before }),
        Doing::ClearErrors => after == (FeedView { errors: 0, ..before }),
    }
}

/// Whether some feeds are a feed that was empty, followed through what was done
/// to it: one before anything was, and one after each doing.
pub open spec fn follows(capacity: nat, doings: Seq<Doing>, feeds: Seq<FeedView>) -> bool {
    &&& feeds.len() == doings.len() + 1
    &&& feeds[0] == FeedView::empty(capacity)
    &&& forall|i: int|
        0 <= i < doings.len() ==> comes_to(feeds[i], feeds[i + 1], #[trigger] doings[i])
}

/// The row an envelope is kept as.
pub open spec fn row_of(envelope: Envelope, gap: Option<u128>) -> RowView {
    RowView { envelope, search: lowered(searched(envelope)), gap }
}

/// Everything pushed, in order, as it is kept.
pub open spec fn pushed_by(doings: Seq<Doing>) -> Seq<RowView>
    decreases doings.len(),
{
    if doings.len() == 0 {
        Seq::empty()
    } else {
        let before = pushed_by(doings.drop_last());
        match doings.last() {
            Doing::Push { envelope, gap } => before.push(row_of(envelope, gap)),
            _ => before,
        }
    }
}

/// How many errors have been noted since they were last cleared.
pub open spec fn errors_after(doings: Seq<Doing>) -> nat
    decreases doings.len(),
{
    if doings.len() == 0 {
        0
    } else {
        match doings.last() {
            Doing::Push { .. } => errors_after(doings.drop_last()),
            Doing::NoteError => errors_after(doings.drop_last()) + 1,
            Doing::ClearErrors => 0,
        }
    }
}

/// How many of some rows are of a schema family.
pub open spec fn of_family(rows: Seq<RowView>, family: Seq<char>) -> nat {
    rows.filter(|row: RowView| family_of(row.envelope.schema_ref@) == family).len()
}

/// How many of some rows were sent by a piece of software.
pub open spec fn of_software(rows: Seq<RowView>, name: Seq<char>) -> nat {
    rows.filter(|row: RowView| row.envelope.header.software_name@ == name).len()
}

/// The system a message names, by address.
pub open spec fn system_named() -> spec_fn(Message) -> Option<i64> {
    |message: Message| named_by(message).system
}

/// The body a message names, by its number.
pub open spec fn body_named() -> spec_fn(Message) -> Option<i128> {
    |message: Message| key_of(named_by(message).body)
}

/// The station a message names, by market.
pub open spec fn station_named() -> spec_fn(Message) -> Option<i64> {
    |message: Message| named_by(message).station
}

/// Whether some rows name a key in a galaxy.
pub open spec fn names_key<K>(
    rows: Seq<RowView>,
    named: spec_fn(Message) -> Option<K>,
    key: K,
    live: bool,
) -> bool {
    exists|i: int|
        0 <= i < rows.len() && (#[trigger] rows[i]).envelope.live == live && named(
            rows[i].envelope.message,
        ) == Some(key)
}

/// Whether a tally is of the keys that some rows name, each in the galaxies it
/// is named in.
pub open spec fn tallies<K>(
    tally: TallyView<K>,
    rows: Seq<RowView>,
    named: spec_fn(Message) -> Option<K>,
) -> bool {
    &&& tally.live.finite() && tally.test.finite()
    &&& forall|key: K| #[trigger]
        tally.live.contains(key) <==> names_key(rows, named, key, true)
    &&& forall|key: K| #[trigger]
        tally.test.contains(key) <==> names_key(rows, named, key, false)
}

proof fn lemma_filter_push<A>(all: Seq<A>, last: A, keep: spec_fn(A) -> bool)
    ensures
        all.push(last).filter(keep).len() == all.filter(keep).len() + if keep(last) {
            1nat
        } else {
            0nat
        },
{
    reveal(Seq::filter);
    assert(all.push(last).drop_last() == all);
}

proof fn lemma_names_push<K>(
    rows: Seq<RowView>,
    row: RowView,
    named: spec_fn(Message) -> Option<K>,
    key: K,
    live: bool,
)
    ensures
        names_key(rows.push(row), named, key, live) <==> names_key(rows, named, key, live) || (
        row.envelope.live == live && named(row.envelope.message) == Some(key)),
{
    let more = rows.push(row);
    if names_key(rows, named, key, live) {
        let i = choose|i: int|
            0 <= i < rows.len() && (#[trigger] rows[i]).envelope.live == live && named(
                rows[i].envelope.message,
            ) == Some(key);
        assert(more[i] == rows[i]);
    }
    if names_key(more, named, key, live) {
        let i = choose|i: int|
            0 <= i < more.len() && (#[trigger] more[i]).envelope.live == live && named(
                more[i].envelope.message,
            ) == Some(key);
        if i < rows.len() {
            assert(more[i] == rows[i]);
        }
    }
    assert(more[rows.len() as int] == row);
}

proof fn lemma_tally_push<K>(
    tally: TallyView<K>,
    rows: Seq<RowView>,
    row: RowView,
    named: spec_fn(Message) -> Option<K>,
)
    requires
        tallies(tally, rows, named),
    ensures
        tallies(
            tally.with_any(named(row.envelope.message), row.envelope.live),
            rows.push(row),
            named,
        ),
{
    let next = tally.with_any(named(row.envelope.message), row.envelope.live);
    assert forall|key: K| #[trigger] next.live.contains(key) <==> names_key(
        rows.push(row),
        named,
        key,
        true,
    ) by {
        lemma_names_push(rows, row, named, key, true);
        assert(tally.live.contains(key) <==> names_key(rows, named, key, true));
    }
    assert forall|key: K| #[trigger] next.test.contains(key) <==> names_key(
        rows.push(row),
        named,
        key,
        false,
    ) by {
        lemma_names_push(rows, row, named, key, false);
        assert(tally.test.contains(key) <==> names_key(rows, named, key, false));
    }
}

/// The last so many of some rows, or all of them where there are fewer.
pub open spec fn last_of(rows: Seq<RowView>, many: nat) -> Seq<RowView> {
    if rows.len() <= many {
        rows
    } else {
        rows.skip(rows.len() - many)
    }
}

/// What holds of a feed that some rows have been pushed to.
pub open spec fn is_of(feed: FeedView, capacity: nat, rows: Seq<RowView>) -> bool {
    &&& feed.is_feed()
    &&& feed.capacity == capacity
    &&& feed.received == rows.len()
    &&& feed.kept == last_of(rows, capacity)
    &&& forall|name: Seq<char>| #[trigger]
        count_of(feed.per_schema, name) == of_family(rows, name)
    &&& forall|name: Seq<char>| #[trigger]
        count_of(feed.per_software, name) == of_software(rows, name)
    &&& tallies(feed.systems, rows, system_named())
    &&& tallies(feed.bodies, rows, body_named())
    &&& tallies(feed.stations, rows, station_named())
}

proof fn lemma_push(
    before: FeedView,
    after: FeedView,
    capacity: nat,
    rows: Seq<RowView>,
    envelope: Envelope,
    gap: Option<u128>,
)
    requires
        is_of(before, capacity, rows),
        after.is_feed(),
        took(before, after, envelope, gap),
    ensures
        is_of(after, capacity, rows.push(row_of(envelope, gap))),
{
    let row = row_of(envelope, gap);
    let more = rows.push(row);
    assert(after.kept == last_of(more, capacity));
    assert forall|name: Seq<char>| #[trigger]
        count_of(after.per_schema, name) == of_family(more, name) by {
        lemma_filter_push(
            rows,
            row,
            |row: RowView| family_of(row.envelope.schema_ref@) == name,
        );
        assert(count_of(before.per_schema, name) == of_family(rows, name));
    }
    assert forall|name: Seq<char>| #[trigger]
        count_of(after.per_software, name) == of_software(more, name) by {
        lemma_filter_push(
            rows,
            row,
            |row: RowView| row.envelope.header.software_name@ == name,
        );
        assert(count_of(before.per_software, name) == of_software(rows, name));
    }
    lemma_tally_push(before.systems, rows, row, system_named());
    lemma_tally_push(before.bodies, rows, row, body_named());
    lemma_tally_push(before.stations, rows, row, station_named());
}

/// A feed's totals are of everything ever pushed to it, whatever else was done
/// and whatever has dropped out of the window since: how many there were; how
/// many of each schema family and how many by each piece of software, live and
/// test alike; and each system, body and station that was named, in the
/// galaxies it was named in. The window is the last of what was pushed, and the
/// errors are those noted since they were last cleared.
///
/// A feed being what [`is_feed`](FeedView::is_feed) says, the counts by family
/// come to everything received, and none of them is of nothing.
pub proof fn the_totals_are_of_everything_pushed(
    capacity: nat,
    doings: Seq<Doing>,
    feeds: Seq<FeedView>,
    n: int,
)
    requires
        follows(capacity, doings, feeds),
        0 <= n <= doings.len(),
    ensures
        is_of(feeds[n], capacity, pushed_by(doings.take(n))),
        by_name(feeds[n].per_schema) && sum(feeds[n].per_schema) == feeds[n].received,
        feeds[n].errors == errors_after(doings.take(n)),
    decreases n,
{
    let done = doings.take(n);
    if n == 0 {
        let none = Seq::<RowView>::empty();
        assert(done == Seq::<Doing>::empty());
        reveal(Seq::filter);
        assert(last_of(none, capacity) == none);
        assert(pushed_by(done) == none);
    } else {
        the_totals_are_of_everything_pushed(capacity, doings, feeds, n - 1);
        assert(done.drop_last() == doings.take(n - 1));
        assert(done.last() == doings[n - 1]);
        assert(comes_to(feeds[n - 1], feeds[n], doings[n - 1]));
        if let Doing::Push { envelope, gap } = doings[n - 1] {
            lemma_push(
                feeds[n - 1],
                feeds[n],
                capacity,
                pushed_by(done.drop_last()),
                envelope,
                gap,
            );
        }
    }
}

/// No total of a feed ever falls, though what it counted drops out of the
/// window.
pub proof fn the_totals_never_fall(
    capacity: nat,
    doings: Seq<Doing>,
    feeds: Seq<FeedView>,
    earlier: int,
    later: int,
    name: Seq<char>,
    galaxy: Galaxy,
)
    requires
        follows(capacity, doings, feeds),
        0 <= earlier <= later <= doings.len(),
    ensures
        feeds[earlier].received <= feeds[later].received,
        count_of(feeds[earlier].per_schema, name) <= count_of(feeds[later].per_schema, name),
        count_of(feeds[earlier].per_software, name) <= count_of(feeds[later].per_software, name),
        feeds[earlier].systems.count(galaxy) <= feeds[later].systems.count(galaxy),
        feeds[earlier].bodies.count(galaxy) <= feeds[later].bodies.count(galaxy),
        feeds[earlier].stations.count(galaxy) <= feeds[later].stations.count(galaxy),
    decreases later - earlier,
{
    if earlier < later {
        the_totals_never_fall(capacity, doings, feeds, earlier, later - 1, name, galaxy);
        the_totals_are_of_everything_pushed(capacity, doings, feeds, later - 1);
        let before = feeds[later - 1];
        let after = feeds[later];
        assert(comes_to(before, after, doings[later - 1]));
        if let Doing::Push { envelope, gap } = doings[later - 1] {
            let names = named_by(envelope.message);
            lemma_count_grows(before.systems, names.system, envelope.live, galaxy);
            lemma_count_grows(before.bodies, key_of(names.body), envelope.live, galaxy);
            lemma_count_grows(before.stations, names.station, envelope.live, galaxy);
            assert(count_of(after.per_schema, name) >= count_of(before.per_schema, name));
            assert(count_of(after.per_software, name) >= count_of(before.per_software, name));
        }
    }
}

proof fn lemma_count_grows<K>(tally: TallyView<K>, key: Option<K>, live: bool, galaxy: Galaxy)
    requires
        tally.live.finite(),
        tally.test.finite(),
    ensures
        tally.count(galaxy) <= tally.with_any(key, live).count(galaxy),
{
    let next = tally.with_any(key, live);
    assert(tally.live.subset_of(next.live) && tally.test.subset_of(next.test));
    vstd::set_lib::lemma_len_subset(tally.live, next.live);
    vstd::set_lib::lemma_len_subset(tally.test, next.test);
}

} // verus!
