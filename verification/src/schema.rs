//! `$schemaRef`: what a message is, and which galaxy it came from.

use crate::text::{
    a_later_text_leaves_the_first_place, a_later_text_leaves_the_parts,
    a_text_has_no_stop_where_it_holds_none, a_text_without_a_stop_stands_before_it, after,
    after_first, before, first_at, first_place_splits, holds, part_after, part_before, run_before,
    same, split_after,
};
use vstd::prelude::*;

verus! {

/// Where every EDDN `$schemaRef` splits from its name.
pub const SCHEMAS: &'static str = "/schemas/";

/// What a `$schemaRef` says about the message beneath it
///
/// A reference reads `https://eddn.edcd.io/schemas/<name>/<version>`, with
/// `/test` after it where the data is not from the live game. All three of
/// those answer different questions and are wanted in different places, which
/// is why they arrive named rather than in an order somebody has to remember.
#[derive(Debug, Clone, Copy, PartialEq, Eq)]
pub struct Schema<'a> {
    /// The schema itself, e.g. `fssdiscoveryscan`
    ///
    /// The only part anything routes on.
    pub name: &'a str,
    /// Which version of it the sender wrote to, as spelled in the reference
    ///
    /// Reported and not acted on, and kept as sent rather than as a number.
    pub version: &'a str,
    /// Whether this is the galaxy everyone is in
    ///
    /// The reference says the opposite -- `/test` marks what is not live --
    /// and it is turned round here so that nobody reading it has to.
    pub live: bool,
}

/// What a reference says, as texts
pub struct SchemaView {
    pub name: Seq<char>,
    pub version: Seq<char>,
    pub live: bool,
}

impl<'a> View for Schema<'a> {
    type V = SchemaView;

    open spec fn view(&self) -> SchemaView {
        SchemaView { name: self.name@, version: self.version@, live: self.live }
    }
}

/// What a `$schemaRef` says: the parts between slashes after `/schemas/`, the
/// first the name, the second the version, and a third that is `test` marking
/// the test galaxies. A reference with no version is not one EDDN sends.
pub open spec fn schema_of(schema_ref: Seq<char>) -> Option<SchemaView> {
    match after_first(schema_ref, SCHEMAS@) {
        Some(tail) => match after(tail, '/') {
            Some(rest) => Some(
                SchemaView {
                    name: before(tail, '/'),
                    version: before(rest, '/'),
                    live: match after(rest, '/') {
                        Some(mark) => before(mark, '/') != "test"@,
                        None => true,
                    },
                },
            ),
            None => None,
        },
        None => None,
    }
}

impl<'a> Schema<'a> {
    /// Read a `$schemaRef`, or nothing where it is not one EDDN sends.
    pub fn read(schema_ref: &'a str) -> (schema: Option<Schema<'a>>)
        ensures
            match schema {
                Some(schema) => schema_of(schema_ref@) == Some(schema@),
                None => schema_of(schema_ref@) is None,
            },
    {
        let tail = match split_after(schema_ref, SCHEMAS) {
            Some(tail) => tail,
            None => {
                return None;
            },
        };
        let rest = match part_after(tail, '/') {
            Some(rest) => rest,
            None => {
                return None;
            },
        };
        let live = match part_after(rest, '/') {
            Some(mark) => !same(part_before(mark, '/'), "test"),
            None => true,
        };
        Some(Schema { name: part_before(tail, '/'), version: part_before(rest, '/'), live })
    }
}

/// A reference and its `/test` twin name the same schema at the same version,
/// and only the twin is not live.
pub proof fn a_test_twin_names_the_same_schema(schema_ref: Seq<char>)
    requires
        schema_of(schema_ref) is Some,
        after(after(after_first(schema_ref, SCHEMAS@)->0, '/')->0, '/') is None,
    ensures
        schema_of(schema_ref)->0.live,
        schema_of(schema_ref + "/test"@) == Some(
            SchemaView { live: false, ..schema_of(schema_ref)->0 },
        ),
{
    reveal_strlit("/test");
    reveal_strlit("test");
    let mark = "/test"@;
    let tail = after_first(schema_ref, SCHEMAS@)->0;
    let rest = after(tail, '/')->0;
    a_later_text_leaves_the_first_place(schema_ref, SCHEMAS@, mark);
    a_later_text_leaves_the_parts(tail, '/', mark);
    a_text_without_a_stop_stands_before_it(rest, '/', mark);
    let test = mark.skip(1);
    assert(test =~= "test"@);
    assert(run_before("test"@, '/') == 4) by {
        reveal_with_fuel(run_before, 5);
        assert("test"@.skip(1).skip(1).skip(1).skip(1).len() == 0);
    }
    assert("test"@.take(4) =~= "test"@);
}

/// Where the name of a schema begins in a reference made of a gateway, the mark
/// every reference splits at, and whatever comes after.
pub proof fn a_reference_splits_at_its_mark(gateway: Seq<char>, tail: Seq<char>)
    requires
        first_at(gateway + "/schemas/"@, "/schemas/"@, gateway.len() as int),
    ensures
        after_first(gateway + "/schemas/"@ + tail, SCHEMAS@) == Some(tail),
{
    let marked = gateway + "/schemas/"@;
    first_place_splits(marked, "/schemas/"@, gateway.len() as int);
    assert(marked.skip(gateway.len() as int + "/schemas/"@.len()) =~= Seq::<char>::empty());
    a_later_text_leaves_the_first_place(marked, "/schemas/"@, tail);
    assert(Seq::<char>::empty() + tail =~= tail);
}

/// A reference made of a gateway, a schema and a version says that schema at
/// that version, live; with one more part after them it is of the test galaxies
/// exactly where that part is `test`; and with no version it is no reference.
pub proof fn a_reference_says_what_it_is_made_of(
    gateway: Seq<char>,
    name: Seq<char>,
    version: Seq<char>,
    mark: Seq<char>,
)
    requires
        first_at(gateway + "/schemas/"@, "/schemas/"@, gateway.len() as int),
        !name.contains('/'),
        !version.contains('/'),
        !mark.contains('/'),
    ensures
        schema_of(gateway + "/schemas/"@ + (name + "/"@ + version)) == Some(
            SchemaView { name, version, live: true },
        ),
        schema_of(gateway + "/schemas/"@ + (name + "/"@ + (version + "/"@ + mark))) == Some(
            SchemaView { name, version, live: mark != "test"@ },
        ),
        schema_of(gateway + "/schemas/"@ + name) is None,
{
    reveal_strlit("/");
    let plain = name + "/"@ + version;
    let marked = version + "/"@ + mark;
    a_reference_splits_at_its_mark(gateway, plain);
    a_reference_splits_at_its_mark(gateway, name + "/"@ + marked);
    a_reference_splits_at_its_mark(gateway, name);
    a_text_has_no_stop_where_it_holds_none(name, '/');
    a_text_has_no_stop_where_it_holds_none(version, '/');
    a_text_has_no_stop_where_it_holds_none(mark, '/');
    assert(plain =~= name + ("/"@ + version));
    assert(name + "/"@ + marked =~= name + ("/"@ + marked));
    assert(marked =~= version + ("/"@ + mark));
    a_text_without_a_stop_stands_before_it(name, '/', "/"@ + version);
    a_text_without_a_stop_stands_before_it(name, '/', "/"@ + marked);
    a_text_without_a_stop_stands_before_it(version, '/', "/"@ + mark);
    assert(("/"@ + version).skip(1) =~= version);
    assert(("/"@ + marked).skip(1) =~= marked);
    assert(("/"@ + mark).skip(1) =~= mark);
}

/// A text without the mark that every reference splits at is no reference.
pub proof fn a_text_without_the_mark_is_no_reference(schema_ref: Seq<char>)
    requires
        !holds(schema_ref, "/schemas/"@),
    ensures
        schema_of(schema_ref) is None,
{
    first_place_splits(schema_ref, "/schemas/"@, 0);
}

/// Whatever comes after a reference's third part changes nothing of what it
/// says.
pub proof fn only_the_third_part_is_a_mark(
    gateway: Seq<char>,
    name: Seq<char>,
    version: Seq<char>,
    mark: Seq<char>,
    more: Seq<char>,
)
    requires
        first_at(gateway + "/schemas/"@, "/schemas/"@, gateway.len() as int),
        !name.contains('/'),
        !version.contains('/'),
        !mark.contains('/'),
    ensures
        schema_of(gateway + "/schemas/"@ + (name + "/"@ + (version + "/"@ + (mark + "/"@ + more))))
            == Some(SchemaView { name, version, live: mark != "test"@ }),
{
    reveal_strlit("/");
    let rest = mark + "/"@ + more;
    let marked = version + "/"@ + rest;
    a_reference_splits_at_its_mark(gateway, name + "/"@ + marked);
    a_text_has_no_stop_where_it_holds_none(name, '/');
    a_text_has_no_stop_where_it_holds_none(version, '/');
    a_text_has_no_stop_where_it_holds_none(mark, '/');
    assert(name + "/"@ + marked =~= name + ("/"@ + marked));
    assert(marked =~= version + ("/"@ + rest));
    assert(rest =~= mark + ("/"@ + more));
    a_text_without_a_stop_stands_before_it(name, '/', "/"@ + marked);
    a_text_without_a_stop_stands_before_it(version, '/', "/"@ + rest);
    a_text_without_a_stop_stands_before_it(mark, '/', "/"@ + more);
    assert(("/"@ + marked).skip(1) =~= marked);
    assert(("/"@ + rest).skip(1) =~= rest);
}

} // verus!
