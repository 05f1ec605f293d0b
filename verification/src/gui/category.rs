//! Colour groups: which names read as one band.

use crate::text::{ascii_small, contains, holds, same, to_ascii_small};
use vstd::prelude::*;

verus! {

/// The words that place a name, in the order they are tried, each with the
/// group it places it in.
pub open spec fn keywords() -> Seq<(Seq<char>, Seq<char>)> {
    seq![
        ("journal"@, "journal"@),
        ("fss"@, "exploration"@),
        ("scan"@, "exploration"@),
        ("signal"@, "exploration"@),
        ("codex"@, "exploration"@),
        ("discovery"@, "exploration"@),
        ("jump"@, "travel"@),
        ("dock"@, "travel"@),
        ("supercruise"@, "travel"@),
        ("location"@, "travel"@),
        ("liftoff"@, "travel"@),
        ("touchdown"@, "travel"@),
        ("approach"@, "travel"@),
        ("nav"@, "travel"@),
        ("interdict"@, "combat"@),
        ("bounty"@, "combat"@),
        ("kill"@, "combat"@),
        ("died"@, "combat"@),
        ("damage"@, "combat"@),
        ("attack"@, "combat"@),
        ("market"@, "trade"@),
        ("trade"@, "trade"@),
        ("commodity"@, "trade"@),
        ("mission"@, "missions"@),
        ("engineer"@, "engineering"@),
        ("module"@, "outfitting"@),
        ("shipyard"@, "outfitting"@),
        ("outfitting"@, "outfitting"@),
        ("powerplay"@, "powerplay"@),
        ("wing"@, "social"@),
        ("crew"@, "social"@),
        ("squadron"@, "social"@),
        ("friends"@, "social"@),
    ]
}

/// The group of the first word that stands in a text, and `other` where none
/// does.
pub open spec fn placed_by(words: Seq<(Seq<char>, Seq<char>)>, text: Seq<char>) -> Seq<char>
    decreases words.len(),
{
    if words.len() == 0 {
        "other"@
    } else if holds(text, words[0].0) {
        words[0].1
    } else {
        placed_by(words.skip(1), text)
    }
}

/// The colour group a name belongs to.
pub open spec fn group_of(key: Seq<char>) -> Seq<char> {
    placed_by(keywords(), ascii_small(key))
}

/// The words that place a name, with their groups.
fn keyword_table() -> (table: Vec<(&'static str, &'static str)>)
    ensures
        table@.len() == keywords().len(),
        forall|i: int|
            0 <= i < table@.len() ==> (#[trigger] table@[i]).0@ == keywords()[i].0 && table@[i].1@
                == keywords()[i].1,
{
    let table = vec![
        ("journal", "journal"),
        ("fss", "exploration"),
        ("scan", "exploration"),
        ("signal", "exploration"),
        ("codex", "exploration"),
        ("discovery", "exploration"),
        ("jump", "travel"),
        ("dock", "travel"),
        ("supercruise", "travel"),
        ("location", "travel"),
        ("liftoff", "travel"),
        ("touchdown", "travel"),
        ("approach", "travel"),
        ("nav", "travel"),
        ("interdict", "combat"),
        ("bounty", "combat"),
        ("kill", "combat"),
        ("died", "combat"),
        ("damage", "combat"),
        ("attack", "combat"),
        ("market", "trade"),
        ("trade", "trade"),
        ("commodity", "trade"),
        ("mission", "missions"),
        ("engineer", "engineering"),
        ("module", "outfitting"),
        ("shipyard", "outfitting"),
        ("outfitting", "outfitting"),
        ("powerplay", "powerplay"),
        ("wing", "social"),
        ("crew", "social"),
        ("squadron", "social"),
        ("friends", "social"),
    ];
    table
}

/// The colour group a schema family or event name belongs to
///
/// Grouping is what lets a run of kindred messages read as one band: every name
/// in a group takes the one hue, and the cell's own text says which member it
/// is. Matching is by substring and case-blind, so a PascalCase event and a
/// lower-case schema family fall in alike -- `FSSDiscoveryScan`,
/// `SAAScanComplete` and the `fssdiscoveryscan` schema all group on a scan,
/// while the `journal` schema keeps a colour of its own. The first keyword
/// found, in the order of the table, places the name; the exploration words
/// come before `nav` so a beacon scan reads as a scan, and `fss` catches the
/// scanner schemas that name no scan outright (`fssbodysignals`). A name no
/// keyword matches is `"other"`.
pub fn category_group(key: &str) -> (group: &'static str)
    ensures
        group@ == group_of(key@),
{
    let lower = to_ascii_small(key);
    let table = keyword_table();
    let mut i: usize = 0;
    assert(keywords().skip(0) == keywords());
    while i < table.len()
        invariant
            i <= table.len(),
            table@.len() == keywords().len(),
            forall|k: int|
                0 <= k < table@.len() ==> (#[trigger] table@[k]).0@ == keywords()[k].0
                    && table@[k].1@ == keywords()[k].1,
            lower@ == ascii_small(key@),
            group_of(key@) == placed_by(keywords().skip(i as int), lower@),
        decreases table.len() - i,
    {
        let (needle, group) = table[i];
        assert(keywords().skip(i as int)[0] == keywords()[i as int]);
        if contains(lower.as_str(), needle) {
            return group;
        }
        assert(keywords().skip(i as int).skip(1) == keywords().skip(i + 1));
        i += 1;
    }
    "other"
}

/// The hue a colour group is drawn at, in hundredths of the wheel, and nothing
/// for a group with no colour.
pub open spec fn hue_of(group: Seq<char>) -> Option<u32> {
    if group == "combat"@ {
        Some(0)
    } else if group == "engineering"@ {
        Some(8)
    } else if group == "outfitting"@ {
        Some(15)
    } else if group == "exploration"@ {
        Some(33)
    } else if group == "social"@ {
        Some(44)
    } else if group == "travel"@ {
        Some(50)
    } else if group == "journal"@ {
        Some(60)
    } else if group == "trade"@ {
        Some(70)
    } else if group == "missions"@ {
        Some(82)
    } else if group == "powerplay"@ {
        Some(92)
    } else {
        None
    }
}

/// The hue a colour group is drawn at, or [`None`] for one with no colour
///
/// The named clusters take fixed, well-spread hues -- combat red, exploration
/// green, trade blue -- so no two read as the same basic colour and the ones
/// that turn up together (a scan and a commodity) sit a long way apart on the
/// wheel. Counted in hundredths of the wheel.
pub fn group_hue(group: &str) -> (hue: Option<u32>)
    ensures
        hue == hue_of(group@),
{
    if same(group, "combat") {
        Some(0)
    } else if same(group, "engineering") {
        Some(8)
    } else if same(group, "outfitting") {
        Some(15)
    } else if same(group, "exploration") {
        Some(33)
    } else if same(group, "social") {
        Some(44)
    } else if same(group, "travel") {
        Some(50)
    } else if same(group, "journal") {
        Some(60)
    } else if same(group, "trade") {
        Some(70)
    } else if same(group, "missions") {
        Some(82)
    } else if same(group, "powerplay") {
        Some(92)
    } else {
        None
    }
}

/// Every group that a word places a name in has a hue of its own, and a name no
/// word places has none.
pub proof fn every_group_has_a_hue_of_its_own(a: Seq<char>, b: Seq<char>, i: int)
    ensures
        hue_of(a) is Some && hue_of(a) == hue_of(b) ==> a == b,
        0 <= i < keywords().len() ==> hue_of(keywords()[i].1) is Some,
        hue_of("other"@) is None,
{
    reveal_strlit("other");
    reveal_strlit("combat");
    reveal_strlit("engineering");
    reveal_strlit("outfitting");
    reveal_strlit("exploration");
    reveal_strlit("social");
    reveal_strlit("travel");
    reveal_strlit("journal");
    reveal_strlit("trade");
    reveal_strlit("missions");
    reveal_strlit("powerplay");
    let other = "other"@;
    assert(other.len() == 5);
    assert("trade"@[0] == 't' && other[0] == 'o');
}

/// A name's case makes no difference to the group it belongs to.
pub proof fn grouping_is_blind_to_case(key: Seq<char>)
    ensures
        group_of(ascii_small(key)) == group_of(key),
{
    assert(ascii_small(ascii_small(key)) =~= ascii_small(key));
}

/// Whether a name has a word of journal in it.
pub open spec fn says_journal(name: Seq<char>) -> bool {
    ||| holds(name, "journal"@)
}

/// Whether a name has a word of exploration in it.
pub open spec fn says_exploration(name: Seq<char>) -> bool {
    ||| holds(name, "fss"@)
    ||| holds(name, "scan"@)
    ||| holds(name, "signal"@)
    ||| holds(name, "codex"@)
    ||| holds(name, "discovery"@)
}

/// Whether a name has a word of travel in it.
pub open spec fn says_travel(name: Seq<char>) -> bool {
    ||| holds(name, "jump"@)
    ||| holds(name, "dock"@)
    ||| holds(name, "supercruise"@)
    ||| holds(name, "location"@)
    ||| holds(name, "liftoff"@)
    ||| holds(name, "touchdown"@)
    ||| holds(name, "approach"@)
    ||| holds(name, "nav"@)
}

/// Whether a name has a word of combat in it.
pub open spec fn says_combat(name: Seq<char>) -> bool {
    ||| holds(name, "interdict"@)
    ||| holds(name, "bounty"@)
    ||| holds(name, "kill"@)
    ||| holds(name, "died"@)
    ||| holds(name, "damage"@)
    ||| holds(name, "attack"@)
}

/// Whether a name has a word of trade in it.
pub open spec fn says_trade(name: Seq<char>) -> bool {
    ||| holds(name, "market"@)
    ||| holds(name, "trade"@)
    ||| holds(name, "commodity"@)
}

/// Whether a name has a word of missions in it.
pub open spec fn says_missions(name: Seq<char>) -> bool {
    ||| holds(name, "mission"@)
}

/// Whether a name has a word of engineering in it.
pub open spec fn says_engineering(name: Seq<char>) -> bool {
    ||| holds(name, "engineer"@)
}

/// Whether a name has a word of outfitting in it.
pub open spec fn says_outfitting(name: Seq<char>) -> bool {
    ||| holds(name, "module"@)
    ||| holds(name, "shipyard"@)
    ||| holds(name, "outfitting"@)
}

/// Whether a name has a word of powerplay in it.
pub open spec fn says_powerplay(name: Seq<char>) -> bool {
    ||| holds(name, "powerplay"@)
}

/// Whether a name has a word of social in it.
pub open spec fn says_social(name: Seq<char>) -> bool {
    ||| holds(name, "wing"@)
    ||| holds(name, "crew"@)
    ||| holds(name, "squadron"@)
    ||| holds(name, "friends"@)
}

/// A name is of the first of these groups that it has a word of in it, whatever
/// its case and wherever in it the word stands, and of none where it has none.
pub proof fn a_name_is_grouped_by_the_words_in_it(key: Seq<char>)
    ensures
        ({
            let name = ascii_small(key);
            group_of(key) == if says_journal(name) {
                "journal"@
            } else if says_exploration(name) {
                "exploration"@
            } else if says_travel(name) {
                "travel"@
            } else if says_combat(name) {
                "combat"@
            } else if says_trade(name) {
                "trade"@
            } else if says_missions(name) {
                "missions"@
            } else if says_engineering(name) {
                "engineering"@
            } else if says_outfitting(name) {
                "outfitting"@
            } else if says_powerplay(name) {
                "powerplay"@
            } else if says_social(name) {
                "social"@
            } else {
                "other"@
            }
        }),
{
    let name = ascii_small(key);
    let words = keywords();
    assert(words.skip(0) =~= words);
    lemma_placed(words, name, 0, "journal"@, "journal"@);
    lemma_placed(words, name, 1, "fss"@, "exploration"@);
    lemma_placed(words, name, 2, "scan"@, "exploration"@);
    lemma_placed(words, name, 3, "signal"@, "exploration"@);
    lemma_placed(words, name, 4, "codex"@, "exploration"@);
    lemma_placed(words, name, 5, "discovery"@, "exploration"@);
    lemma_placed(words, name, 6, "jump"@, "travel"@);
    lemma_placed(words, name, 7, "dock"@, "travel"@);
    lemma_placed(words, name, 8, "supercruise"@, "travel"@);
    lemma_placed(words, name, 9, "location"@, "travel"@);
    lemma_placed(words, name, 10, "liftoff"@, "travel"@);
    lemma_placed(words, name, 11, "touchdown"@, "travel"@);
    lemma_placed(words, name, 12, "approach"@, "travel"@);
    lemma_placed(words, name, 13, "nav"@, "travel"@);
    lemma_placed(words, name, 14, "interdict"@, "combat"@);
    lemma_placed(words, name, 15, "bounty"@, "combat"@);
    lemma_placed(words, name, 16, "kill"@, "combat"@);
    lemma_placed(words, name, 17, "died"@, "combat"@);
    lemma_placed(words, name, 18, "damage"@, "combat"@);
    lemma_placed(words, name, 19, "attack"@, "combat"@);
    lemma_placed(words, name, 20, "market"@, "trade"@);
    lemma_placed(words, name, 21, "trade"@, "trade"@);
    lemma_placed(words, name, 22, "commodity"@, "trade"@);
    lemma_placed(words, name, 23, "mission"@, "missions"@);
    lemma_placed(words, name, 24, "engineer"@, "engineering"@);
    lemma_placed(words, name, 25, "module"@, "outfitting"@);
    lemma_placed(words, name, 26, "shipyard"@, "outfitting"@);
    lemma_placed(words, name, 27, "outfitting"@, "outfitting"@);
    lemma_placed(words, name, 28, "powerplay"@, "powerplay"@);
    lemma_placed(words, name, 29, "wing"@, "social"@);
    lemma_placed(words, name, 30, "crew"@, "social"@);
    lemma_placed(words, name, 31, "squadron"@, "social"@);
    lemma_placed(words, name, 32, "friends"@, "social"@);
    assert(words.skip(33).len() == 0);
}

/// A word either places a name or leaves it to the words after it.
proof fn lemma_placed(
    words: Seq<(Seq<char>, Seq<char>)>,
    name: Seq<char>,
    i: int,
    word: Seq<char>,
    group: Seq<char>,
)
    requires
        0 <= i < words.len(),
        words[i] == (word, group),
    ensures
        placed_by(words.skip(i), name) == if holds(name, word) {
            group
        } else {
            placed_by(words.skip(i + 1), name)
        },
{
    assert(words.skip(i)[0] == words[i]);
    assert(words.skip(i).skip(1) =~= words.skip(i + 1));
}

/// The groups are drawn at hues of their own, none within six hundredths of the
/// wheel of another.
pub proof fn hues_are_well_apart(a: Seq<char>, b: Seq<char>)
    requires
        a != b,
        hue_of(a) is Some,
        hue_of(b) is Some,
    ensures
        hue_of(a)->0 < 100,
        hue_of(a)->0 >= hue_of(b)->0 + 6 || hue_of(b)->0 >= hue_of(a)->0 + 6,
        hue_of(a)->0 + 100 >= hue_of(b)->0 + 6,
{
}

/// Each group is drawn at its own place on the wheel, from red for combat round
/// by green for exploration and blue for trade, and no other group is drawn.
pub proof fn a_group_is_drawn_at_its_hue(group: Seq<char>)
    ensures
        hue_of("combat"@) == Some(0u32),
        hue_of("engineering"@) == Some(8u32),
        hue_of("outfitting"@) == Some(15u32),
        hue_of("exploration"@) == Some(33u32),
        hue_of("social"@) == Some(44u32),
        hue_of("travel"@) == Some(50u32),
        hue_of("journal"@) == Some(60u32),
        hue_of("trade"@) == Some(70u32),
        hue_of("missions"@) == Some(82u32),
        hue_of("powerplay"@) == Some(92u32),
        group != "combat"@ && group != "engineering"@ && group != "outfitting"@ && group
            != "exploration"@ && group != "social"@ && group != "travel"@ && group != "journal"@
            && group != "trade"@ && group != "missions"@ && group != "powerplay"@ ==> hue_of(
            group,
        ) is None,
{
    reveal_strlit("combat");
    reveal_strlit("engineering");
    reveal_strlit("outfitting");
    reveal_strlit("exploration");
    reveal_strlit("social");
    reveal_strlit("travel");
    reveal_strlit("journal");
    reveal_strlit("trade");
    reveal_strlit("missions");
    reveal_strlit("powerplay");
    assert("combat"@.len() == 6);
    assert("engineering"@.len() == 11);
    assert("outfitting"@.len() == 10);
    assert("exploration"@.len() == 11);
    assert("social"@.len() == 6);
    assert("travel"@.len() == 6);
    assert("journal"@.len() == 7);
    assert("trade"@.len() == 5);
    assert("missions"@.len() == 8);
    assert("powerplay"@.len() == 9);
    assert("outfitting"@[0] == 'o');
    assert("combat"@[0] == 'c' && "social"@[0] == 's' && "travel"@[0] == 't');
    assert("engineering"@[1] == 'n' && "exploration"@[1] == 'x');
    assert("powerplay"@[0] == 'p');
}

} // verus!
