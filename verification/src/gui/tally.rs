//! Running totals: distinct keys by galaxy, and counts by name.

use crate::galaxy::Galaxy;
use crate::text::{less, same, sorting_is_total, sorting_is_transitive, sorts_before};
use std::collections::HashSet;
use std::hash::Hash;
use vstd::prelude::*;
use vstd::std_specs::hash::obeys_key_model;

verus! {

broadcast use vstd::std_specs::hash::group_hash_axioms;

/// Distinct keys seen, split by galaxy so a count can honour a live/test filter
///
/// Both galaxies together is the two counts added, so a key someone publishes
/// to the live galaxy and a test one alike is counted in each -- which is the
/// publisher's to answer for, not this type's to hide.
pub struct Tally<K> {
    live: HashSet<K>,
    test: HashSet<K>,
}

/// Distinct keys seen, by galaxy
#[verifier::reject_recursive_types(K)]
pub struct TallyView<K> {
    pub live: Set<K>,
    pub test: Set<K>,
}

impl<K> View for Tally<K> {
    type V = TallyView<K>;

    closed spec fn view(&self) -> TallyView<K> {
        TallyView { live: self.live@, test: self.test@ }
    }
}

impl<K> TallyView<K> {
    /// The tally with nothing in it.
    pub open spec fn none() -> TallyView<K> {
        TallyView { live: Set::empty(), test: Set::empty() }
    }

    /// The tally with a key seen in a galaxy.
    pub open spec fn with(self, key: K, live: bool) -> TallyView<K> {
        if live {
            TallyView { live: self.live.insert(key), test: self.test }
        } else {
            TallyView { live: self.live, test: self.test.insert(key) }
        }
    }

    /// The tally with a key seen in a galaxy, where there is one.
    pub open spec fn with_any(self, key: Option<K>, live: bool) -> TallyView<K> {
        match key {
            Some(key) => self.with(key, live),
            None => self,
        }
    }

    /// How many keys the galaxy shows.
    pub open spec fn count(self, galaxy: Galaxy) -> nat {
        (if galaxy.admits(true) {
            self.live.len()
        } else {
            0
        }) + (if galaxy.admits(false) {
            self.test.len()
        } else {
            0
        })
    }
}

impl<K: Eq + Hash> Tally<K> {
    /// A tally with nothing in it.
    pub fn new() -> (tally: Self)
        ensures
            tally@ == TallyView::<K>::none(),
    {
        Tally { live: HashSet::new(), test: HashSet::new() }
    }

    /// A key has been seen in a galaxy.
    pub fn insert(&mut self, key: K, live: bool)
        requires
            obeys_key_model::<K>(),
        ensures
            final(self)@ == old(self)@.with(key, live),
    {
        if live {
            self.live.insert(key);
        } else {
            self.test.insert(key);
        }
    }

    /// How many keys the galaxy shows.
    pub fn count(&self, galaxy: Galaxy) -> (count: u128)
        requires
            obeys_key_model::<K>(),
        ensures
            count == self@.count(galaxy),
    {
        let mut count: u128 = 0;
        if galaxy.shows(true) {
            count += self.live.len() as u128;
        }
        if galaxy.shows(false) {
            count += self.test.len() as u128;
        }
        count
    }
}

/// Both galaxies together is the two counts added, so a key on both is counted
/// on each, and under neither nothing is counted.
pub proof fn both_galaxies_count_a_shared_key_twice<K>(tally: TallyView<K>)
    ensures
        tally.count(Galaxy::ALL) == tally.count(Galaxy::LIVE) + tally.count(Galaxy::TEST),
        tally.count(Galaxy::LIVE) == tally.live.len(),
        tally.count(Galaxy::TEST) == tally.test.len(),
        tally.count(Galaxy::NONE) == 0,
{
}

/// The tally of some keys, each seen in a galaxy.
pub open spec fn tallied<K>(seen: Seq<(K, bool)>) -> TallyView<K>
    decreases seen.len(),
{
    if seen.len() == 0 {
        TallyView::none()
    } else {
        tallied(seen.drop_last()).with(seen.last().0, seen.last().1)
    }
}

/// A tally holds the keys that were seen, each in the galaxies it was seen in,
/// however often and in whatever order.
pub proof fn a_tally_holds_what_was_seen<K>(seen: Seq<(K, bool)>, key: K)
    ensures
        tallied(seen).live.contains(key) <==> seen.contains((key, true)),
        tallied(seen).test.contains(key) <==> seen.contains((key, false)),
        tallied(seen).live.finite() && tallied(seen).test.finite(),
    decreases seen.len(),
{
    if seen.len() > 0 {
        let before = seen.drop_last();
        let last = seen[seen.len() - 1];
        a_tally_holds_what_was_seen(before, key);
        assert forall|live: bool| #[trigger] seen.contains((key, live)) <==> before.contains(
            (key, live),
        ) || last == (key, live) by {
            if before.contains((key, live)) {
                let i = choose|i: int| 0 <= i < before.len() && before[i] == (key, live);
                assert(seen[i] == (key, live));
            }
            if last == (key, live) {
                assert(seen.contains(seen[seen.len() - 1]));
            }
            if seen.contains((key, live)) && last != (key, live) {
                let i = choose|i: int| 0 <= i < seen.len() && seen[i] == (key, live);
                assert(before[i] == (key, live));
            }
        }
        assert(seen.contains((key, true)) == (before.contains((key, true)) || last == (key, true)));
        assert(seen.contains((key, false)) == (before.contains((key, false)) || last == (
            key,
            false,
        )));
    }
}

/// A key seen again in its galaxy changes nothing.
pub proof fn a_key_is_counted_once<K>(tally: TallyView<K>, key: K, live: bool)
    ensures
        tally.with(key, live).with(key, live) == tally.with(key, live),
{
    let once = tally.with(key, live);
    let twice = once.with(key, live);
    assert(once.live =~= twice.live);
    assert(once.test =~= twice.test);
}

/// Counts by name, in name order
#[derive(Debug)]
pub struct Counts {
    entries: Vec<(String, u64)>,
}

/// Some names and their counts, as texts and numbers.
pub open spec fn entries_of(entries: Seq<(String, u64)>) -> Seq<(Seq<char>, u64)> {
    Seq::new(entries.len(), |i: int| (entries[i].0@, entries[i].1))
}

/// Whether names stand in order, each once, and only what was counted is there.
pub open spec fn by_name(entries: Seq<(Seq<char>, u64)>) -> bool {
    &&& forall|i: int, j: int|
        0 <= i < j < entries.len() ==> sorts_before(
            (#[trigger] entries[i]).0,
            (#[trigger] entries[j]).0,
        )
    &&& forall|i: int| 0 <= i < entries.len() ==> (#[trigger] entries[i]).1 > 0
}

/// What some counts come to.
pub open spec fn sum(entries: Seq<(Seq<char>, u64)>) -> nat
    decreases entries.len(),
{
    if entries.len() == 0 {
        0
    } else {
        sum(entries.drop_last()) + entries.last().1 as nat
    }
}

/// The count of a name, and none where it has none.
pub open spec fn count_of(entries: Seq<(Seq<char>, u64)>, name: Seq<char>) -> nat
    decreases entries.len(),
{
    if entries.len() == 0 {
        0
    } else if entries.last().0 == name {
        entries.last().1 as nat
    } else {
        count_of(entries.drop_last(), name)
    }
}

/// Whether a name has been counted once more, and no other.
pub open spec fn counted_once(
    before: Seq<(Seq<char>, u64)>,
    after: Seq<(Seq<char>, u64)>,
    name: Seq<char>,
) -> bool {
    forall|each: Seq<char>| #[trigger]
        count_of(after, each) == count_of(before, each) + if each == name {
            1nat
        } else {
            0nat
        }
}

impl View for Counts {
    type V = Seq<(Seq<char>, u64)>;

    closed spec fn view(&self) -> Seq<(Seq<char>, u64)> {
        entries_of(self.entries@)
    }
}

proof fn lemma_sum_insert(entries: Seq<(Seq<char>, u64)>, at: int, entry: (Seq<char>, u64))
    requires
        0 <= at <= entries.len(),
    ensures
        sum(entries.insert(at, entry)) == sum(entries) + entry.1,
    decreases entries.len(),
{
    let bigger = entries.insert(at, entry);
    if at == entries.len() {
        assert(bigger.drop_last() == entries);
    } else {
        assert(bigger.drop_last() == entries.drop_last().insert(at, entry));
        lemma_sum_insert(entries.drop_last(), at, entry);
    }
}

proof fn lemma_sum_update(entries: Seq<(Seq<char>, u64)>, at: int, entry: (Seq<char>, u64))
    requires
        0 <= at < entries.len(),
    ensures
        sum(entries.update(at, entry)) == sum(entries) - entries[at].1 + entry.1,
        entries[at].1 <= sum(entries),
    decreases entries.len(),
{
    let changed = entries.update(at, entry);
    if at == entries.len() - 1 {
        assert(changed.drop_last() == entries.drop_last());
    } else {
        assert(changed.drop_last() == entries.drop_last().update(at, entry));
        lemma_sum_update(entries.drop_last(), at, entry);
    }
}

proof fn lemma_count_at(entries: Seq<(Seq<char>, u64)>, at: int)
    requires
        by_name(entries),
        0 <= at < entries.len(),
    ensures
        count_of(entries, entries[at].0) == entries[at].1,
    decreases entries.len(),
{
    if at < entries.len() - 1 {
        sorting_is_total(entries[at].0, entries.last().0);
        assert(entries[entries.len() - 1] == entries.last());
        lemma_count_at(entries.drop_last(), at);
    }
}

proof fn lemma_count_absent(entries: Seq<(Seq<char>, u64)>, name: Seq<char>)
    requires
        forall|k: int| 0 <= k < entries.len() ==> (#[trigger] entries[k]).0 != name,
    ensures
        count_of(entries, name) == 0,
    decreases entries.len(),
{
    if entries.len() > 0 {
        assert(entries[entries.len() - 1].0 != name);
        lemma_count_absent(entries.drop_last(), name);
    }
}

proof fn lemma_count_insert(
    entries: Seq<(Seq<char>, u64)>,
    at: int,
    entry: (Seq<char>, u64),
    name: Seq<char>,
)
    requires
        0 <= at <= entries.len(),
        name != entry.0,
    ensures
        count_of(entries.insert(at, entry), name) == count_of(entries, name),
    decreases entries.len(),
{
    let bigger = entries.insert(at, entry);
    if at == entries.len() {
        assert(bigger.drop_last() == entries);
    } else {
        assert(bigger.drop_last() == entries.drop_last().insert(at, entry));
        lemma_count_insert(entries.drop_last(), at, entry, name);
    }
}

proof fn lemma_count_update(
    entries: Seq<(Seq<char>, u64)>,
    at: int,
    count: u64,
    name: Seq<char>,
)
    requires
        0 <= at < entries.len(),
        name != entries[at].0,
    ensures
        count_of(entries.update(at, (entries[at].0, count)), name) == count_of(entries, name),
    decreases entries.len(),
{
    let changed = entries.update(at, (entries[at].0, count));
    if at == entries.len() - 1 {
        assert(changed.drop_last() == entries.drop_last());
    } else {
        assert(changed.drop_last() == entries.drop_last().update(at, (entries[at].0, count)));
        lemma_count_update(entries.drop_last(), at, count, name);
    }
}

/// A name is listed where it has been counted at all, once, with its count.
pub proof fn a_name_is_listed_where_it_was_counted(
    entries: Seq<(Seq<char>, u64)>,
    name: Seq<char>,
)
    requires
        by_name(entries),
    ensures
        count_of(entries, name) > 0 <==> exists|k: int|
            0 <= k < entries.len() && (#[trigger] entries[k]).0 == name,
        forall|k: int|
            0 <= k < entries.len() && (#[trigger] entries[k]).0 == name ==> entries[k].1
                == count_of(entries, name),
{
    assert forall|k: int| 0 <= k < entries.len() && (#[trigger] entries[k]).0 == name implies entries[k].1
        == count_of(entries, name) by {
        lemma_count_at(entries, k);
    }
    if forall|k: int| 0 <= k < entries.len() ==> (#[trigger] entries[k]).0 != name {
        lemma_count_absent(entries, name);
    }
}

impl Counts {
    /// Nothing counted yet.
    pub fn new() -> (counts: Self)
        ensures
            counts@ == Seq::<(Seq<char>, u64)>::empty(),
    {
        let counts = Counts { entries: Vec::new() };
        assert(counts@ == Seq::<(Seq<char>, u64)>::empty());
        counts
    }

    /// Count a name once more.
    pub fn add_one(&mut self, name: &str)
        requires
            by_name(old(self)@),
            sum(old(self)@) < u64::MAX,
        ensures
            by_name(final(self)@),
            sum(final(self)@) == sum(old(self)@) + 1,
            counted_once(old(self)@, final(self)@, name@),
    {
        let ghost before = self@;
        let mut at: usize = 0;
        while at < self.entries.len() && less(self.entries[at].0.as_str(), name)
            invariant
                at <= self.entries@.len(),
                before == self@,
                forall|k: int| 0 <= k < at ==> sorts_before((#[trigger] before[k]).0, name@),
            decreases self.entries.len() - at,
        {
            at += 1;
        }
        if at < self.entries.len() && same(self.entries[at].0.as_str(), name) {
            let key = self.entries[at].0.clone();
            let count: u64 = self.entries[at].1;
            proof {
                lemma_sum_update(before, at as int, (name@, 0u64));
            }
            self.entries.set(at, (key, count + 1));
            proof {
                let entry = (name@, (count + 1) as u64);
                assert(self@ == before.update(at as int, entry));
                lemma_sum_update(before, at as int, entry);
                assert(before[at as int].0 == name@);
                assert forall|i: int, j: int| 0 <= i < j < self@.len() implies sorts_before(
                    (#[trigger] self@[i]).0,
                    (#[trigger] self@[j]).0,
                ) by {
                    assert(sorts_before(before[i].0, before[j].0));
                }
                lemma_count_at(before, at as int);
                lemma_count_at(self@, at as int);
                assert forall|other: Seq<char>| other != name@ implies #[trigger] count_of(
                    self@,
                    other,
                ) == count_of(before, other) by {
                    lemma_count_update(before, at as int, (count + 1) as u64, other);
                }
            }
        } else {
            proof {
                if at < before.len() {
                    sorting_is_total(before[at as int].0, name@);
                }
                assert forall|k: int| at <= k < before.len() implies sorts_before(
                    name@,
                    (#[trigger] before[k]).0,
                ) by {
                    if k > at {
                        assert(sorts_before(before[at as int].0, before[k].0));
                        sorting_is_transitive(name@, before[at as int].0, before[k].0);
                    }
                }
                assert forall|k: int| 0 <= k < before.len() implies (#[trigger] before[k]).0
                    != name@ by {
                    sorting_is_total(name@, before[k].0);
                }
                lemma_count_absent(before, name@);
            }
            self.entries.insert(at, (name.to_owned(), 1));
            proof {
                let entry = (name@, 1u64);
                assert(self@ == before.insert(at as int, entry));
                lemma_sum_insert(before, at as int, entry);
                assert forall|i: int, j: int| 0 <= i < j < self@.len() implies sorts_before(
                    (#[trigger] self@[i]).0,
                    (#[trigger] self@[j]).0,
                ) by {
                    if i == at {
                        assert(self@[j] == before[j - 1]);
                    } else if j == at {
                        assert(self@[i] == before[i]);
                    } else {
                        assert(self@[i] == before[if i < at { i } else { i - 1 }]);
                        assert(self@[j] == before[if j < at { j } else { j - 1 }]);
                    }
                }
                lemma_count_at(self@, at as int);
                assert forall|other: Seq<char>| other != name@ implies #[trigger] count_of(
                    self@,
                    other,
                ) == count_of(before, other) by {
                    lemma_count_insert(before, at as int, entry, other);
                }
            }
        }
    }

    /// How many names there are.
    pub fn len(&self) -> (len: usize)
        ensures
            len == self@.len(),
    {
        self.entries.len()
    }

    /// The name and count at a place in the order.
    pub fn entry(&self, at: usize) -> (entry: (&str, u64))
        requires
            at < self@.len(),
        ensures
            (entry.0@, entry.1) == self@[at as int],
    {
        let (name, count) = &self.entries[at];
        (name.as_str(), *count)
    }

    /// The count of a name, where it has one.
    pub fn get(&self, name: &str) -> (count: Option<u64>)
        requires
            by_name(self@),
        ensures
            match count {
                Some(count) => count == count_of(self@, name@) && exists|k: int|
                    0 <= k < self@.len() && (#[trigger] self@[k]).0 == name@,
                None => forall|k: int| 0 <= k < self@.len() ==> (#[trigger] self@[k]).0 != name@,
            },
    {
        let mut at: usize = 0;
        while at < self.entries.len()
            invariant
                at <= self.entries@.len(),
                by_name(self@),
                forall|k: int| 0 <= k < at ==> (#[trigger] self@[k]).0 != name@,
            decreases self.entries.len() - at,
        {
            if same(self.entries[at].0.as_str(), name) {
                proof {
                    lemma_count_at(self@, at as int);
                    assert(self@[at as int].0 == name@);
                }
                return Some(self.entries[at].1);
            }
            at += 1;
        }
        None
    }
}

/// Names stand in order, each once, and each has been counted.
pub proof fn names_are_listed_in_order(entries: Seq<(Seq<char>, u64)>, i: int, j: int)
    requires
        by_name(entries),
        0 <= i < j < entries.len(),
    ensures
        sorts_before(entries[i].0, entries[j].0),
        entries[i].0 != entries[j].0,
        entries[i].1 > 0 && entries[j].1 > 0,
{
    sorting_is_total(entries[i].0, entries[i].0);
}

/// The counts come to as many as there were, one more for each counted.
pub proof fn what_is_counted_adds_up(entries: Seq<(Seq<char>, u64)>, entry: (Seq<char>, u64))
    ensures
        sum(entries.push(entry)) == sum(entries) + entry.1,
        sum(Seq::empty()) == 0,
{
    assert(entries.push(entry).drop_last() =~= entries);
}

} // verus!
