//! Which galaxy a message describes, and which a reader asked for.

use vstd::prelude::*;

verus! {

/// Which galaxy's data to hand over
///
/// EDDN carries alpha and beta ("test") data on the same socket as the live
/// galaxy, told apart by a `/test` suffix on the `$schemaRef`. Keeping the
/// live galaxy and keeping the test one are independent choices, so this is a
/// set of the two: [`LIVE`](Galaxy::LIVE), [`TEST`](Galaxy::TEST), or
/// [`ALL`](Galaxy::ALL) for both, and [`NONE`](Galaxy::NONE) for neither. Only
/// the live galaxy is handed over unless asked otherwise, so a reader cannot
/// record test data by forgetting to.
#[derive(Debug, Clone, Copy, PartialEq, Eq, Structural)]
pub enum Galaxy {
    /// Neither galaxy, which shows nothing.
    NONE,
    /// The live galaxy everyone plays in.
    LIVE,
    /// The alpha and beta test galaxies.
    TEST,
    /// Both the live galaxy and the test ones.
    ALL,
}

impl Galaxy {
    /// Whether the set holds the galaxy of a live-or-not message.
    pub open spec fn admits(self, live: bool) -> bool {
        match self {
            Galaxy::NONE => false,
            Galaxy::LIVE => live,
            Galaxy::TEST => !live,
            Galaxy::ALL => true,
        }
    }

    /// The set that holds the live galaxy, the test ones, both or neither.
    pub open spec fn holding(live: bool, test: bool) -> Galaxy {
        if live && test {
            Galaxy::ALL
        } else if live {
            Galaxy::LIVE
        } else if test {
            Galaxy::TEST
        } else {
            Galaxy::NONE
        }
    }

    /// The set that holds the live galaxy, the test ones, both or neither.
    fn of(live: bool, test: bool) -> (galaxy: Galaxy)
        ensures
            galaxy == Galaxy::holding(live, test),
    {
        if live && test {
            Galaxy::ALL
        } else if live {
            Galaxy::LIVE
        } else if test {
            Galaxy::TEST
        } else {
            Galaxy::NONE
        }
    }

    /// The set of neither galaxy.
    pub fn empty() -> (galaxy: Galaxy)
        ensures
            galaxy == Galaxy::NONE,
    {
        Galaxy::NONE
    }

    /// The set of both.
    pub fn all() -> (galaxy: Galaxy)
        ensures
            galaxy == Galaxy::ALL,
    {
        Galaxy::ALL
    }

    /// The set as bits: one for the live galaxy, and the next for the test
    /// ones.
    pub open spec fn as_bits(self) -> u8 {
        match self {
            Galaxy::NONE => 0,
            Galaxy::LIVE => 1,
            Galaxy::TEST => 2,
            Galaxy::ALL => 3,
        }
    }

    /// The set as bits: one for the live galaxy, and the next for the test
    /// ones.
    pub fn bits(self) -> (bits: u8)
        ensures
            bits == self.as_bits(),
    {
        match self {
            Galaxy::NONE => 0,
            Galaxy::LIVE => 1,
            Galaxy::TEST => 2,
            Galaxy::ALL => 3,
        }
    }

    /// The set some bits say, where no others are set.
    pub fn from_bits(bits: u8) -> (galaxy: Option<Galaxy>)
        ensures
            match galaxy {
                Some(galaxy) => galaxy.as_bits() == bits,
                None => bits > 3,
            },
    {
        match bits {
            0 => Some(Galaxy::NONE),
            1 => Some(Galaxy::LIVE),
            2 => Some(Galaxy::TEST),
            3 => Some(Galaxy::ALL),
            _ => None,
        }
    }

    /// The set some bits say, leaving the others out.
    pub fn from_bits_truncate(bits: u8) -> (galaxy: Galaxy)
        ensures
            galaxy.as_bits() == bits % 4,
    {
        Galaxy::of(bits % 2 == 1, bits / 2 % 2 == 1)
    }

    /// Whether neither galaxy is in this set.
    pub fn is_empty(self) -> (empty: bool)
        ensures
            empty == !(exists|live: bool| self.admits(live)),
    {
        assert(Galaxy::LIVE.admits(true) && Galaxy::TEST.admits(false) && Galaxy::ALL.admits(true));
        matches!(self, Galaxy::NONE)
    }

    /// Whether both galaxies are in this set.
    pub fn is_all(self) -> (all: bool)
        ensures
            all == (forall|live: bool| self.admits(live)),
    {
        assert(!Galaxy::LIVE.admits(false) && !Galaxy::TEST.admits(true));
        assert(!Galaxy::NONE.admits(true));
        matches!(self, Galaxy::ALL)
    }

    /// Whether every galaxy of `other` is in this set.
    pub fn contains(self, other: Galaxy) -> (held: bool)
        ensures
            held == (forall|live: bool| other.admits(live) ==> self.admits(live)),
    {
        let held = (self.live() || !other.live()) && (self.test() || !other.test());
        proof {
            if !held {
                let live = !self.admits(true) && other.admits(true);
                assert(other.admits(live) && !self.admits(live));
            }
        }
        held
    }

    /// Whether any galaxy of `other` is in this set.
    pub fn intersects(self, other: Galaxy) -> (shared: bool)
        ensures
            shared == (exists|live: bool| other.admits(live) && self.admits(live)),
    {
        let shared = (self.live() && other.live()) || (self.test() && other.test());
        proof {
            if shared {
                let live = self.admits(true) && other.admits(true);
                assert(other.admits(live) && self.admits(live));
            }
        }
        shared
    }

    /// Whether the live galaxy is in this set.
    fn live(self) -> (held: bool)
        ensures
            held == self.admits(true),
    {
        matches!(self, Galaxy::LIVE | Galaxy::ALL)
    }

    /// Whether the test galaxies are in this set.
    fn test(self) -> (held: bool)
        ensures
            held == self.admits(false),
    {
        matches!(self, Galaxy::TEST | Galaxy::ALL)
    }

    /// The galaxies of either set.
    pub fn union(self, other: Galaxy) -> (galaxy: Galaxy)
        ensures
            forall|live: bool| #[trigger]
                galaxy.admits(live) <==> self.admits(live) || other.admits(live),
    {
        Galaxy::of(self.live() || other.live(), self.test() || other.test())
    }

    /// The galaxies of both sets.
    pub fn intersection(self, other: Galaxy) -> (galaxy: Galaxy)
        ensures
            forall|live: bool| #[trigger]
                galaxy.admits(live) <==> self.admits(live) && other.admits(live),
    {
        Galaxy::of(self.live() && other.live(), self.test() && other.test())
    }

    /// The galaxies of this set that are not in the other.
    pub fn difference(self, other: Galaxy) -> (galaxy: Galaxy)
        ensures
            forall|live: bool| #[trigger]
                galaxy.admits(live) <==> self.admits(live) && !other.admits(live),
    {
        Galaxy::of(self.live() && !other.live(), self.test() && !other.test())
    }

    /// The galaxies of one set or the other and not both.
    pub fn symmetric_difference(self, other: Galaxy) -> (galaxy: Galaxy)
        ensures
            forall|live: bool| #[trigger]
                galaxy.admits(live) <==> self.admits(live) != other.admits(live),
    {
        Galaxy::of(self.live() != other.live(), self.test() != other.test())
    }

    /// The galaxies not in this set.
    pub fn complement(self) -> (galaxy: Galaxy)
        ensures
            forall|live: bool| #[trigger] galaxy.admits(live) <==> !self.admits(live),
    {
        Galaxy::of(!self.live(), !self.test())
    }

    /// Adds the galaxies of another set to this one.
    pub fn insert(&mut self, other: Galaxy)
        ensures
            forall|live: bool| #[trigger]
                final(self).admits(live) <==> old(self).admits(live) || other.admits(live),
    {
        *self = (*self).union(other);
    }

    /// Takes the galaxies of another set out of this one.
    pub fn remove(&mut self, other: Galaxy)
        ensures
            forall|live: bool| #[trigger]
                final(self).admits(live) <==> old(self).admits(live) && !other.admits(live),
    {
        *self = (*self).difference(other);
    }

    /// Adds the galaxies of another set that are not in this one, and takes out
    /// those that are.
    pub fn toggle(&mut self, other: Galaxy)
        ensures
            forall|live: bool| #[trigger]
                final(self).admits(live) <==> old(self).admits(live) != other.admits(live),
    {
        *self = (*self).symmetric_difference(other);
    }

    /// Adds the galaxies of another set to this one, or takes them out of it.
    pub fn set(&mut self, other: Galaxy, value: bool)
        ensures
            forall|live: bool| #[trigger]
                final(self).admits(live) <==> if other.admits(live) {
                    value
                } else {
                    old(self).admits(live)
                },
    {
        if value {
            self.insert(other);
        } else {
            self.remove(other);
        }
    }

    /// Whether a message in the live-or-not galaxy belongs to this set
    ///
    /// A live message belongs where [`LIVE`](Galaxy::LIVE) is set, a test one
    /// where [`TEST`](Galaxy::TEST) is, and [`ALL`](Galaxy::ALL) holds both.
    /// The one predicate both the reader's frame filter and a viewer's galaxy
    /// filter read, so the two cannot disagree on what a galaxy admits.
    pub fn shows(self, live: bool) -> (shown: bool)
        ensures
            shown == self.admits(live),
    {
        let wanted = if live { Galaxy::LIVE } else { Galaxy::TEST };
        let shown = self.contains(wanted);
        proof {
            assert(wanted.admits(live));
            if self.admits(live) {
                assert(forall|other: bool| wanted.admits(other) ==> other == live);
            }
        }
        shown
    }
}

impl Default for Galaxy {
    /// The live galaxy alone, so test data is never recorded unasked.
    fn default() -> (galaxy: Self)
        ensures
            galaxy == Galaxy::LIVE,
    {
        Galaxy::LIVE
    }
}

impl vstd::std_specs::ops::BitOrSpecImpl for Galaxy {
    open spec fn obeys_bitor_spec() -> bool {
        true
    }

    open spec fn bitor_req(self, other: Galaxy) -> bool {
        true
    }

    open spec fn bitor_spec(self, other: Galaxy) -> Galaxy {
        Galaxy::holding(
            self.admits(true) || other.admits(true),
            self.admits(false) || other.admits(false),
        )
    }
}

impl std::ops::BitOr for Galaxy {
    type Output = Galaxy;

    /// The galaxies of either set.
    fn bitor(self, other: Galaxy) -> (galaxy: Galaxy) {
        let galaxy = self.union(other);
        proof {
            sets_are_what_they_hold(
                galaxy,
                Galaxy::holding(
                    self.admits(true) || other.admits(true),
                    self.admits(false) || other.admits(false),
                ),
            );
        }
        galaxy
    }
}

impl vstd::std_specs::ops::BitAndSpecImpl for Galaxy {
    open spec fn obeys_bitand_spec() -> bool {
        true
    }

    open spec fn bitand_req(self, other: Galaxy) -> bool {
        true
    }

    open spec fn bitand_spec(self, other: Galaxy) -> Galaxy {
        Galaxy::holding(
            self.admits(true) && other.admits(true),
            self.admits(false) && other.admits(false),
        )
    }
}

impl std::ops::BitAnd for Galaxy {
    type Output = Galaxy;

    /// The galaxies of both sets.
    fn bitand(self, other: Galaxy) -> (galaxy: Galaxy) {
        let galaxy = self.intersection(other);
        proof {
            sets_are_what_they_hold(
                galaxy,
                Galaxy::holding(
                    self.admits(true) && other.admits(true),
                    self.admits(false) && other.admits(false),
                ),
            );
        }
        galaxy
    }
}

impl vstd::std_specs::ops::BitXorSpecImpl for Galaxy {
    open spec fn obeys_bitxor_spec() -> bool {
        true
    }

    open spec fn bitxor_req(self, other: Galaxy) -> bool {
        true
    }

    open spec fn bitxor_spec(self, other: Galaxy) -> Galaxy {
        Galaxy::holding(
            self.admits(true) != other.admits(true),
            self.admits(false) != other.admits(false),
        )
    }
}

impl std::ops::BitXor for Galaxy {
    type Output = Galaxy;

    /// The galaxies of one set or the other and not both.
    fn bitxor(self, other: Galaxy) -> (galaxy: Galaxy) {
        let galaxy = self.symmetric_difference(other);
        proof {
            sets_are_what_they_hold(
                galaxy,
                Galaxy::holding(
                    self.admits(true) != other.admits(true),
                    self.admits(false) != other.admits(false),
                ),
            );
        }
        galaxy
    }
}

impl vstd::std_specs::ops::SubSpecImpl for Galaxy {
    open spec fn obeys_sub_spec() -> bool {
        true
    }

    open spec fn sub_req(self, other: Galaxy) -> bool {
        true
    }

    open spec fn sub_spec(self, other: Galaxy) -> Galaxy {
        Galaxy::holding(
            self.admits(true) && !other.admits(true),
            self.admits(false) && !other.admits(false),
        )
    }
}

impl std::ops::Sub for Galaxy {
    type Output = Galaxy;

    /// The galaxies of this set that are not in the other.
    fn sub(self, other: Galaxy) -> (galaxy: Galaxy) {
        let galaxy = self.difference(other);
        proof {
            sets_are_what_they_hold(
                galaxy,
                Galaxy::holding(
                    self.admits(true) && !other.admits(true),
                    self.admits(false) && !other.admits(false),
                ),
            );
        }
        galaxy
    }
}

impl vstd::std_specs::ops::NotSpecImpl for Galaxy {
    open spec fn obeys_not_spec() -> bool {
        true
    }

    open spec fn not_req(self) -> bool {
        true
    }

    open spec fn not_spec(self) -> Galaxy {
        Galaxy::holding(!self.admits(true), !self.admits(false))
    }
}

impl std::ops::Not for Galaxy {
    type Output = Galaxy;

    /// The galaxies not in this set.
    fn not(self) -> (galaxy: Galaxy) {
        let galaxy = self.complement();
        proof {
            sets_are_what_they_hold(
                galaxy,
                Galaxy::holding(!self.admits(true), !self.admits(false)),
            );
        }
        galaxy
    }
}

/// Two sets that hold the same galaxies are the same.
pub proof fn sets_are_what_they_hold(one: Galaxy, other: Galaxy)
    requires
        forall|live: bool| #[trigger] one.admits(live) <==> other.admits(live),
    ensures
        one == other,
{
    assert(one.admits(true) == other.admits(true) && one.admits(false) == other.admits(false));
}

/// A set is read back from its bits.
pub proof fn bits_tell_sets_apart(one: Galaxy, other: Galaxy)
    ensures
        one.as_bits() == other.as_bits() <==> one == other,
        one.as_bits() <= 3,
{
}

/// A message is shown under both galaxies, under exactly one of the two, and
/// never under neither.
pub proof fn galaxies_partition_messages(live: bool)
    ensures
        Galaxy::ALL.admits(live),
        Galaxy::LIVE.admits(live) != Galaxy::TEST.admits(live),
        !Galaxy::NONE.admits(live),
{
}

/// A set holds what it was made of: the live galaxy, the test ones, both or
/// neither.
pub proof fn a_set_holds_what_it_was_made_of(live: bool, test: bool)
    ensures
        Galaxy::holding(live, test).admits(true) == live,
        Galaxy::holding(live, test).admits(false) == test,
{
}

/// The first bit of a set is the live galaxy, and the second the test ones.
pub proof fn a_set_has_a_bit_for_each_galaxy(galaxy: Galaxy)
    ensures
        galaxy.as_bits() % 2 == 1 <==> galaxy.admits(true),
        galaxy.as_bits() / 2 == 1 <==> galaxy.admits(false),
{
}

} // verus!
