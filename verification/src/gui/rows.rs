//! The rows a viewer lists, and how it holds its place among them.

use crate::envelope::Envelope;
use crate::galaxy::Galaxy;
use crate::gui::feed::{Feed, FeedView, RowView};
use crate::text::{contains, holds, lower, lowered};
use vstd::prelude::*;

verus! {

/// A row listed: the sequence number of its envelope, the envelope, and the
/// gap it followed
///
/// The sequence number is the count of envelopes pushed before it, so a row
/// keeps its identity as the window drops old ones out from under the shifting
/// indices.
#[derive(Clone, Copy, Debug)]
pub struct Listed<'a> {
    pub seq: u64,
    pub envelope: &'a Envelope,
    pub gap: Option<u128>,
}

/// A row listed, by sequence number
pub struct ListedView {
    pub seq: nat,
    pub envelope: Envelope,
    pub gap: Option<u128>,
}

impl<'a> View for Listed<'a> {
    type V = ListedView;

    open spec fn view(&self) -> ListedView {
        ListedView { seq: self.seq as nat, envelope: *self.envelope, gap: self.gap }
    }
}

/// Whether a row is listed: its galaxy is shown, and what is sought stands in
/// the text it is searched by.
pub open spec fn is_listed(row: RowView, view: Galaxy, needle: Seq<char>) -> bool {
    view.admits(row.envelope.live) && (needle.len() == 0 || holds(row.search, needle))
}

/// The first so many rows of a window that are listed, in order, numbered from
/// how many envelopes came before the window.
pub open spec fn listed_of(
    kept: Seq<RowView>,
    evicted: nat,
    view: Galaxy,
    needle: Seq<char>,
) -> Seq<ListedView>
    decreases kept.len(),
{
    if kept.len() == 0 {
        Seq::empty()
    } else {
        let before = listed_of(kept.drop_last(), evicted, view, needle);
        let row = kept.last();
        if is_listed(row, view, needle) {
            before.push(
                ListedView {
                    seq: (evicted + kept.len() - 1) as nat,
                    envelope: row.envelope,
                    gap: row.gap,
                },
            )
        } else {
            before
        }
    }
}

/// The rows a feed lists for a view and a filter.
pub open spec fn listing(feed: FeedView, view: Galaxy, filter: Seq<char>) -> Seq<ListedView> {
    listed_of(feed.kept, (feed.received - feed.kept.len()) as nat, view, lowered(filter))
}

/// The rows of some lists.
pub open spec fn views_of(rows: Seq<Listed>) -> Seq<ListedView> {
    Seq::new(rows.len(), |i: int| rows[i]@)
}

/// The rows to list: those whose galaxy the view shows and whose text the
/// filter stands in, oldest first
///
/// The filter is lowered first, as the text was, so it matches whatever case it
/// is typed in.
pub fn list<'a>(feed: &'a Feed, view: Galaxy, filter: &str) -> (rows: Vec<Listed<'a>>)
    requires
        feed@.is_feed(),
    ensures
        views_of(rows@) == listing(feed@, view, filter@),
{
    let needle = lower(filter);
    let any = needle.as_str().is_empty();
    let kept = feed.rows();
    let evicted: u64 = feed.received() - feed.retained() as u64;
    let mut rows: Vec<Listed<'a>> = Vec::new();
    let mut i: usize = 0;
    let ghost window = feed@.kept;
    assert(views_of(rows@) =~= listed_of(window.take(0), evicted as nat, view, needle@));
    while i < kept.len()
        invariant
            i <= kept@.len(),
            window == feed@.kept,
            kept@.len() == window.len(),
            forall|k: int| 0 <= k < kept@.len() ==> (#[trigger] kept@[k])@ == window[k],
            evicted + window.len() <= u64::MAX,
            any == (needle@.len() == 0),
            views_of(rows@) == listed_of(window.take(i as int), evicted as nat, view, needle@),
        decreases kept@.len() - i,
    {
        let row = &kept[i];
        let ghost before = views_of(rows@);
        assert(window.take(i + 1).drop_last() =~= window.take(i as int));
        assert(window.take(i + 1).last() == row@);
        if view.shows(row.envelope.live) && (any || contains(row.search, needle.as_str())) {
            rows.push(Listed { seq: evicted + i as u64, envelope: row.envelope, gap: row.gap });
            assert(views_of(rows@) =~= before.push(rows@.last()@));
        }
        i += 1;
    }
    assert(window.take(i as int) =~= window);
    rows
}

proof fn lemma_listed_below(kept: Seq<RowView>, evicted: nat, view: Galaxy, needle: Seq<char>)
    ensures
        forall|i: int|
            0 <= i < listed_of(kept, evicted, view, needle).len() ==> evicted <= (
            #[trigger] listed_of(kept, evicted, view, needle)[i]).seq < evicted + kept.len(),
    decreases kept.len(),
{
    if kept.len() > 0 {
        lemma_listed_below(kept.drop_last(), evicted, view, needle);
        let before = listed_of(kept.drop_last(), evicted, view, needle);
        let all = listed_of(kept, evicted, view, needle);
        assert forall|i: int| 0 <= i < all.len() implies evicted <= (#[trigger] all[i]).seq
            < evicted + kept.len() by {
            if i < before.len() {
                assert(all[i] == before[i]);
            }
        }
    }
}

/// The rows listed climb by sequence number, whatever is filtered out.
pub proof fn sequence_numbers_climb(
    kept: Seq<RowView>,
    evicted: nat,
    view: Galaxy,
    needle: Seq<char>,
    i: int,
    j: int,
)
    requires
        0 <= i < j < listed_of(kept, evicted, view, needle).len(),
    ensures
        listed_of(kept, evicted, view, needle)[i].seq
            < listed_of(kept, evicted, view, needle)[j].seq,
    decreases kept.len(),
{
    let before = listed_of(kept.drop_last(), evicted, view, needle);
    lemma_listed_below(kept.drop_last(), evicted, view, needle);
    if j < before.len() {
        sequence_numbers_climb(kept.drop_last(), evicted, view, needle, i, j);
    } else {
        assert(listed_of(kept, evicted, view, needle)[i] == before[i]);
    }
}

/// A row is listed exactly where its galaxy is shown and the filter stands in
/// its text, under the sequence number of its place in the window.
pub proof fn a_row_is_listed_where_it_matches(
    kept: Seq<RowView>,
    evicted: nat,
    view: Galaxy,
    needle: Seq<char>,
    i: int,
)
    requires
        0 <= i < kept.len(),
    ensures
        is_listed(kept[i], view, needle) <==> exists|k: int|
            0 <= k < listed_of(kept, evicted, view, needle).len() && (#[trigger] listed_of(
                kept,
                evicted,
                view,
                needle,
            )[k]).seq == evicted + i,
    decreases kept.len(),
{
    let all = listed_of(kept, evicted, view, needle);
    let before = listed_of(kept.drop_last(), evicted, view, needle);
    lemma_listed_below(kept.drop_last(), evicted, view, needle);
    if i == kept.len() - 1 {
        if is_listed(kept[i], view, needle) {
            assert(all[all.len() - 1].seq == evicted + i);
        } else {
            assert(all == before);
        }
    } else {
        a_row_is_listed_where_it_matches(kept.drop_last(), evicted, view, needle, i);
        assert(kept.drop_last()[i] == kept[i]);
        if is_listed(kept[i], view, needle) {
            let k = choose|k: int|
                0 <= k < before.len() && (#[trigger] before[k]).seq == evicted + i;
            assert(all[k] == before[k]);
        } else if exists|k: int| 0 <= k < all.len() && (#[trigger] all[k]).seq == evicted + i {
            let k = choose|k: int| 0 <= k < all.len() && (#[trigger] all[k]).seq == evicted + i;
            if k < before.len() {
                assert(before[k] == all[k]);
            }
        }
    }
}

/// Whether sequence numbers climb.
pub open spec fn climbing<T>(rows: Seq<(u64, T)>) -> bool {
    forall|i: int, j: int|
        0 <= i < j < rows.len() ==> (#[trigger] rows[i]).0 < (#[trigger] rows[j]).0
}

/// Whether a row is the first whose sequence number has caught up to one, or
/// the end of the rows where none has.
pub open spec fn catches_up<T>(rows: Seq<(u64, T)>, anchor: u64, top: int) -> bool {
    &&& 0 <= top <= rows.len()
    &&& forall|i: int| 0 <= i < top ==> (#[trigger] rows[i]).0 < anchor
    &&& forall|i: int| top <= i < rows.len() ==> (#[trigger] rows[i]).0 >= anchor
}

/// The row at the top of a view scrolled past so many whole rows.
pub open spec fn row_scrolled_to<T>(rows: Seq<(u64, T)>, scrolled: nat) -> int {
    if scrolled < rows.len() {
        scrolled as int
    } else {
        rows.len() - 1
    }
}

/// The row an anchored message sits at
///
/// The rows are newest-last and their sequence numbers only climb, so the
/// anchored message sits at the first row whose sequence has caught up to it. A
/// message already evicted has no row and lands at the top, which is where
/// reading the oldest kept message leaves you anyway.
pub fn anchor_row<T>(rows: &[(u64, T)], anchor: u64) -> (top: usize)
    requires
        climbing(rows@),
    ensures
        catches_up(rows@, anchor, top as int),
{
    let mut top: usize = 0;
    while top < rows.len() && rows[top].0 < anchor
        invariant
            top <= rows@.len(),
            forall|i: int| 0 <= i < top ==> (#[trigger] rows@[i]).0 < anchor,
        decreases rows@.len() - top,
    {
        top += 1;
    }
    proof {
        assert forall|i: int| top <= i < rows@.len() implies (#[trigger] rows@[i]).0 >= anchor by {
            if i > top {
                assert(rows@[top as int].0 < rows@[i].0);
            }
        }
    }
    top
}

/// Whether this is what holds a view scrolled past so many whole rows still.
pub open spec fn anchors<T>(
    rows: Seq<(u64, T)>,
    at_bottom: bool,
    scrolled: nat,
    anchor: Option<(u64, usize)>,
) -> bool {
    match anchor {
        Some((seq, top)) => {
            &&& rows.len() > 0 && !at_bottom
            &&& top == row_scrolled_to(rows, scrolled)
            &&& seq == rows[top as int].0
        },
        None => rows.len() == 0 || at_bottom,
    }
}

/// The message at the top of a view scrolled past so many whole rows, and the
/// row it sits at, or [`None`] when the view is at the bottom
///
/// At the bottom there is nothing to anchor: sticking to the bottom already
/// follows the newest row, and anchoring would fight it.
pub fn top_anchor<T>(rows: &[(u64, T)], at_bottom: bool, scrolled: usize) -> (anchor: Option<
    (u64, usize),
>)
    ensures
        anchors(rows@, at_bottom, scrolled as nat, anchor),
{
    if rows.len() == 0 || at_bottom {
        return None;
    }
    let top: usize = if scrolled < rows.len() { scrolled } else { rows.len() - 1 };
    Some((rows[top].0, top))
}

/// A message at the top of a view is put back there: however many newer rows
/// come after it and however many older ones are evicted, the row it is found
/// at is the one that holds it, as many rows up as went. Where it has gone
/// itself, the oldest row kept is at the top.
pub proof fn an_anchor_holds_a_message_still<T>(
    rows: Seq<(u64, T)>,
    newer: Seq<(u64, T)>,
    evicted: int,
    scrolled: nat,
    top: int,
)
    requires
        climbing(rows + newer),
        rows.len() > 0,
        0 <= evicted <= rows.len() + newer.len(),
        ({
            let anchor = rows[row_scrolled_to(rows, scrolled)].0;
            catches_up((rows + newer).skip(evicted), anchor, top)
        }),
    ensures
        ({
            let at = row_scrolled_to(rows, scrolled);
            if evicted <= at {
                top == at - evicted && (rows + newer).skip(evicted)[top] == rows[at]
            } else {
                top == 0
            }
        }),
{
    let at = row_scrolled_to(rows, scrolled);
    let all = rows + newer;
    let kept = all.skip(evicted);
    assert(all[at] == rows[at]);
    if evicted <= at {
        assert(kept[at - evicted] == all[at]);
        if top < at - evicted {
            assert(kept[top] == all[top + evicted]);
        }
    } else if top > 0 {
        assert(kept[0] == all[evicted]);
    }
}

/// A row of the window is listed exactly where the view shows its galaxy and
/// the lowered filter stands in the text it is searched by, or nothing is
/// filtered for; as its own envelope, with the gap it followed, and numbered by
/// how many were pushed before it.
pub proof fn a_row_is_listed_where_the_filter_stands_in_it(
    feed: FeedView,
    view: Galaxy,
    filter: Seq<char>,
    i: int,
)
    requires
        feed.is_feed(),
        0 <= i < feed.kept.len(),
    ensures
        ({
            let row = feed.kept[i];
            let listed = listing(feed, view, filter);
            let number = (feed.received - feed.kept.len() + i) as nat;
            listed.contains(
                ListedView { seq: number, envelope: row.envelope, gap: row.gap },
            ) <==> view.admits(row.envelope.live) && (lowered(filter).len() == 0 || holds(
                row.search,
                lowered(filter),
            ))
        }),
{
    let evicted = (feed.received - feed.kept.len()) as nat;
    lemma_listed(feed.kept, evicted, view, lowered(filter), i);
}

proof fn lemma_listed(
    kept: Seq<RowView>,
    evicted: nat,
    view: Galaxy,
    needle: Seq<char>,
    i: int,
)
    requires
        0 <= i < kept.len(),
    ensures
        listed_of(kept, evicted, view, needle).contains(
            ListedView {
                seq: (evicted + i) as nat,
                envelope: kept[i].envelope,
                gap: kept[i].gap,
            },
        ) <==> view.admits(kept[i].envelope.live) && (needle.len() == 0 || holds(
            kept[i].search,
            needle,
        )),
    decreases kept.len(),
{
    let all = listed_of(kept, evicted, view, needle);
    let most = kept.drop_last();
    let before = listed_of(most, evicted, view, needle);
    let sought = ListedView {
        seq: (evicted + i) as nat,
        envelope: kept[i].envelope,
        gap: kept[i].gap,
    };
    lemma_listed_below(most, evicted, view, needle);
    if i == kept.len() - 1 {
        if all.len() > before.len() {
            assert(all[all.len() - 1] == sought);
        }
        if all.contains(sought) {
            let k = choose|k: int| 0 <= k < all.len() && all[k] == sought;
            if k < before.len() {
                assert(before[k] == all[k]);
            }
        }
    } else {
        assert(most[i] == kept[i]);
        lemma_listed(most, evicted, view, needle, i);
        if before.contains(sought) {
            let k = choose|k: int| 0 <= k < before.len() && before[k] == sought;
            assert(all[k] == sought);
        }
        if all.contains(sought) {
            let k = choose|k: int| 0 <= k < all.len() && all[k] == sought;
            if k < before.len() {
                assert(before[k] == sought);
            }
        }
    }
}

/// A view at the bottom is held by nothing, and neither is one without rows;
/// any other is held by the row it is scrolled to, which is the last where it
/// is scrolled past them all.
pub proof fn a_view_is_held_by_the_row_it_is_scrolled_to<T>(
    rows: Seq<(u64, T)>,
    at_bottom: bool,
    scrolled: nat,
    anchor: Option<(u64, usize)>,
)
    requires
        anchors(rows, at_bottom, scrolled, anchor),
    ensures
        anchor is None <==> at_bottom || rows.len() == 0,
        anchor matches Some((seq, top)) ==> top < rows.len() && seq == rows[top as int].0 && (top
            == scrolled || top < scrolled && top == rows.len() - 1),
{
}

/// An anchored row is the first that has caught up, so that every row above it
/// came before it and every row from it on did not.
pub proof fn an_anchor_parts_the_rows<T>(rows: Seq<(u64, T)>, anchor: u64, top: int, i: int)
    requires
        catches_up(rows, anchor, top),
        0 <= i < rows.len(),
    ensures
        0 <= top <= rows.len(),
        rows[i].0 < anchor <==> i < top,
{
}

} // verus!
