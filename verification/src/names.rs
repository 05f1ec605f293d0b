//! Short names for what a message is.

use crate::schema::{a_reference_splits_at_its_mark, schema_of, SCHEMAS};
use crate::text::{
    a_later_text_leaves_the_first_place, a_later_text_leaves_the_parts,
    a_text_has_no_stop_where_it_holds_none, a_text_without_a_stop_stands_before_it, after,
    after_first, before, chars_of, first_at, first_place_splits, holds, is_space, is_white,
    part_before, split_after,
};
use vstd::prelude::*;
use vstd::string::StrSliceExecFns;

verus! {

/// A schema's name, without the gateway, version or `/test` around it, and a
/// reference that is not one EDDN sends as it is.
pub open spec fn family_of(schema_ref: Seq<char>) -> Seq<char> {
    match after_first(schema_ref, SCHEMAS@) {
        Some(tail) => before(tail, '/'),
        None => schema_ref,
    }
}

/// The schema's name, without the gateway, version or `/test` around it
///
/// `https://eddn.edcd.io/schemas/journal/1` and its `/test` twin both answer
/// `journal`, which is what a tally wants: a count per kind of message rather
/// than per version of each. A reference this cannot find its way through is
/// answered whole, so nothing an unrecognised shape carries is silently merged
/// into another.
pub fn schema_family(schema_ref: &str) -> (family: &str)
    ensures
        family@ == family_of(schema_ref@),
{
    match split_after(schema_ref, SCHEMAS) {
        Some(tail) => part_before(tail, '/'),
        None => schema_ref,
    }
}

/// Whether a character ends the name at the front of a `Debug` rendering.
pub open spec fn ends_name(c: char) -> bool {
    c == '(' || c == '{' || is_space(c)
}

/// How many characters stand before the first that ends a name.
pub open spec fn name_run(debug: Seq<char>) -> nat
    decreases debug.len(),
{
    if debug.len() == 0 || ends_name(debug[0]) {
        0
    } else {
        1 + name_run(debug.skip(1))
    }
}

/// The variant name at the front of a derived `Debug` rendering.
pub open spec fn name_of(debug: Seq<char>) -> Seq<char> {
    debug.take(name_run(debug) as int)
}

/// The variant name at the front of a derived [`Debug`] rendering
///
/// `FsdJump(FsdJump { .. })` is `FsdJump`. Everything a `Debug` puts after the
/// name opens with `(`, `{` or a space, so the name is what stands before the
/// first of those.
pub fn variant_name(debug: &str) -> (name: String)
    ensures
        name@ == name_of(debug@),
{
    let chars = chars_of(debug);
    let mut end: usize = 0;
    assert(chars@.skip(0) == chars@);
    while end < chars.len() && !(chars[end] == '(' || chars[end] == '{' || is_white(chars[end]))
        invariant
            end <= chars.len(),
            name_run(chars@) == end + name_run(chars@.skip(end as int)),
        decreases chars.len() - end,
    {
        assert(chars@.skip(end as int).skip(1) == chars@.skip(end + 1));
        end += 1;
    }
    debug.substring_char(0, end).to_owned()
}

/// A reference with a version, and whatever is written after it, are of one
/// family: its `/test` twin among them.
pub proof fn a_test_twin_is_of_the_same_family(schema_ref: Seq<char>, more: Seq<char>)
    requires
        after_first(schema_ref, SCHEMAS@) is Some,
        after(after_first(schema_ref, SCHEMAS@)->0, '/') is Some,
    ensures
        family_of(schema_ref + more) == family_of(schema_ref),
{
    a_later_text_leaves_the_first_place(schema_ref, SCHEMAS@, more);
    a_later_text_leaves_the_parts(after_first(schema_ref, SCHEMAS@)->0, '/', more);
}

/// The family of a reference EDDN sends is the name it routes by.
pub proof fn a_family_is_the_schema_named(schema_ref: Seq<char>)
    requires
        schema_of(schema_ref) is Some,
    ensures
        family_of(schema_ref) == schema_of(schema_ref)->0.name,
{
}

/// A reference made of a gateway and a schema, with anything after a slash
/// behind it, is of that schema's family; and a text without the mark that
/// every reference splits at is a family of its own.
pub proof fn a_family_is_named_in_its_reference(
    gateway: Seq<char>,
    name: Seq<char>,
    more: Seq<char>,
    other: Seq<char>,
)
    requires
        first_at(gateway + "/schemas/"@, "/schemas/"@, gateway.len() as int),
        !name.contains('/'),
        more.len() == 0 || more[0] == '/',
        !holds(other, "/schemas/"@),
    ensures
        family_of(gateway + "/schemas/"@ + (name + more)) == name,
        family_of(other) == other,
{
    a_reference_splits_at_its_mark(gateway, name + more);
    a_text_has_no_stop_where_it_holds_none(name, '/');
    if more.len() == 0 {
        assert(name + more =~= name);
    } else {
        a_text_without_a_stop_stands_before_it(name, '/', more);
    }
    first_place_splits(other, "/schemas/"@, 0);
}

/// A variant is named by what stands before the first bracket, brace or space
/// of its rendering, and by all of it where there is none.
pub proof fn a_variant_is_named_before_what_it_holds(name: Seq<char>, held: Seq<char>)
    requires
        forall|i: int|
            0 <= i < name.len() ==> (#[trigger] name[i]) != '(' && name[i] != '{' && !is_space(
                name[i],
            ),
        held.len() == 0 || held[0] == '(' || held[0] == '{' || is_space(held[0]),
    ensures
        name_of(name + held) == name,
{
    lemma_name_run(name, held);
    assert((name + held).take(name.len() as int) =~= name);
}

proof fn lemma_name_run(name: Seq<char>, held: Seq<char>)
    requires
        forall|i: int|
            0 <= i < name.len() ==> (#[trigger] name[i]) != '(' && name[i] != '{' && !is_space(
                name[i],
            ),
        held.len() == 0 || held[0] == '(' || held[0] == '{' || is_space(held[0]),
    ensures
        name_run(name + held) == name.len(),
    decreases name.len(),
{
    let all = name + held;
    if name.len() > 0 {
        assert(all[0] == name[0]);
        assert(all.skip(1) =~= name.skip(1) + held);
        assert forall|i: int| 0 <= i < name.skip(1).len() implies (#[trigger] name.skip(1)[i])
            != '(' && name.skip(1)[i] != '{' && !is_space(name.skip(1)[i]) by {
            assert(name.skip(1)[i] == name[i + 1]);
        }
        lemma_name_run(name.skip(1), held);
    } else {
        assert(all =~= held);
    }
}

} // verus!
