//! Segments: the files a spool is kept in, one for each UTC hour.

use crate::moment::{
    four_digit_year, hour_text, names_moment, read_second, second_spelled, spelled, Moment,
    HOUR_FORMAT,
};
use crate::text::{
    all_digits, in_order, insert_in_order, is_all_digits, sorts_before, strip_suffix, stripped,
    texts,
};
use vstd::prelude::*;
use vstd::string::StrSliceExecFns;

verus! {

/// The suffix a segment carries, so nothing else in the directory is read as
/// one.
pub const SUFFIX: &'static str = ".eddn";

/// Whether a name is spelled as an hour is: ten digits.
pub open spec fn is_hour_name(name: Seq<char>) -> bool {
    name.len() == 10 && all_digits(name)
}

/// The hour a segment was opened in, or nothing where the name is not one of
/// ours.
pub open spec fn opened_at(name: Seq<char>) -> Option<(int, int)> {
    if is_hour_name(name) {
        second_spelled(name + "0000"@)
    } else {
        None
    }
}

/// The segment a file holds: its name without the suffix, where it has the
/// suffix and names an hour.
pub open spec fn segment_of(file: Seq<char>) -> Option<Seq<char>> {
    match stripped(file, SUFFIX@) {
        Some(name) => if opened_at(name) is Some {
            Some(name)
        } else {
            None
        },
        None => None,
    }
}

/// The segments among some files, in the files' order.
pub open spec fn segments_of(files: Seq<Seq<char>>) -> Seq<Seq<char>>
    decreases files.len(),
{
    if files.len() == 0 {
        Seq::empty()
    } else {
        let before = segments_of(files.drop_last());
        match segment_of(files.last()) {
            Some(name) => before.push(name),
            None => before,
        }
    }
}

/// Whether the name of a moment's hour is spelled as hours are, and sorts among
/// the names of hours as the hour does among hours. [`segment_name`] says so
/// of each name it spells.
pub open spec fn hour_sorts(at: (int, int)) -> bool {
    four_digit_year(at.0) ==> {
        &&& is_hour_name(spelled(at, HOUR_FORMAT@))
        &&& forall|other: (int, int)|
            four_digit_year(other.0) && names_moment(other.0, other.1) ==> (sorts_before(
                spelled(at, HOUR_FORMAT@),
                #[trigger] spelled(other, HOUR_FORMAT@),
            ) <==> at.0 / 3600 < other.0 / 3600)
    }
}

/// Whether the name of a moment's hour is read back as the start of that hour.
/// [`opened`] says so of each such name it reads.
pub open spec fn hour_reads_back(at: (int, int)) -> bool {
    opened_at(spelled(at, HOUR_FORMAT@)) == Some((at.0 - at.0 % 3600, 0int))
}

/// The name of the segment a moment is recorded in
///
/// The names sort as the hours do, which is the whole reason they are spelled
/// this way: the order a directory is listed in is nobody's to rely on, and a
/// string compare is the order of the feed.
pub fn segment_name(at: Moment) -> (name: String)
    ensures
        name@ == spelled(at@, HOUR_FORMAT@),
        hour_sorts(at@),
{
    hour_text(at)
}

/// The hour a segment was opened in, or nothing where the name is not one of
/// ours.
pub fn opened(name: &str) -> (at: Option<Moment>)
    ensures
        match at {
            Some(at) => opened_at(name@) == Some(at@),
            None => opened_at(name@) is None,
        },
        forall|at_of: (int, int)|
            is_hour_name(name@) && four_digit_year(at_of.0) && names_moment(at_of.0, at_of.1)
                && name@ == #[trigger] spelled(at_of, HOUR_FORMAT@) ==> hour_reads_back(at_of),
{
    // Chrono takes a field of fewer digits than it writes, so a name that is
    // not spelled as an hour is turned away before it is read as one.
    if name.unicode_len() != 10 || !is_all_digits(name) {
        return None;
    }
    let mut stamp = name.to_owned();
    stamp.append("0000");
    read_second(stamp.as_str())
}

/// The file a segment is kept in.
pub open spec fn file_named(name: Seq<char>) -> Seq<char> {
    name + SUFFIX@
}

/// The file a segment is kept in.
pub fn file_name(name: &str) -> (file: String)
    ensures
        file@ == file_named(name@),
{
    let mut file = name.to_owned();
    file.append(SUFFIX);
    file
}

/// Whether some names are the segments among a directory's files, oldest first.
pub open spec fn lists(files: Seq<Seq<char>>, held: Seq<Seq<char>>) -> bool {
    &&& in_order(held)
    &&& held.to_multiset() == segments_of(files).to_multiset()
}

/// Every segment among a directory's files, oldest first.
pub fn segments(files: &Vec<String>) -> (held: Vec<String>)
    ensures
        lists(texts(files@), texts(held@)),
{
    let mut held: Vec<String> = Vec::new();
    let mut i: usize = 0;
    assert(texts(held@) == segments_of(texts(files@).take(0)));
    while i < files.len()
        invariant
            i <= files.len(),
            in_order(texts(held@)),
            texts(held@).to_multiset() == segments_of(texts(files@).take(i as int)).to_multiset(),
        decreases files.len() - i,
    {
        let ghost seen = texts(files@).take(i as int);
        let ghost more = texts(files@).take(i + 1);
        assert(more.drop_last() == seen);
        assert(more.last() == files@[i as int]@);
        if let Some(name) = strip_suffix(files[i].as_str(), SUFFIX) {
            if opened(name.as_str()).is_some() {
                proof {
                    vstd::seq_lib::to_multiset_build(segments_of(seen), name@);
                }
                insert_in_order(&mut held, name);
            }
        }
        i += 1;
    }
    assert(texts(files@).take(i as int) == texts(files@));
    held
}

/// A segment's file is the segment's own: its name is what stands before the
/// suffix.
pub proof fn a_file_holds_the_segment_it_is_named_for(name: Seq<char>)
    ensures
        file_named(name) == name + ".eddn"@,
        segment_of(name + ".eddn"@) == if opened_at(name) is Some {
            Some(name)
        } else {
            None
        },
        opened_at(name) is Some ==> name.len() == 10 && forall|i: int|
            0 <= i < 10 ==> '0' <= #[trigger] name[i] <= '9',
        name.len() == 10 && (forall|i: int| 0 <= i < 10 ==> '0' <= #[trigger] name[i] <= '9')
            ==> opened_at(name) == second_spelled(name + "0000"@),
{
    let file = name + ".eddn"@;
    let from = file.len() - ".eddn"@.len();
    assert(file.subrange(from, file.len() as int) =~= ".eddn"@);
    assert(file.take(from) =~= name);
}

/// Whatever else a directory holds, a segment is listed exactly as often as its
/// file is there, and nothing is listed that does not name an hour.
pub proof fn a_segment_is_listed_where_its_file_is(
    files: Seq<Seq<char>>,
    held: Seq<Seq<char>>,
    name: Seq<char>,
)
    requires
        lists(files, held),
    ensures
        opened_at(name) is Some ==> held.to_multiset().count(name) == files.to_multiset().count(
            name + ".eddn"@,
        ),
        opened_at(name) is None ==> !held.contains(name),
        held.contains(name) <==> opened_at(name) is Some && files.contains(name + ".eddn"@),
        forall|i: int, j: int|
            0 <= i < j < held.len() ==> !sorts_before(#[trigger] held[j], #[trigger] held[i]),
{
    broadcast use vstd::seq_lib::group_to_multiset_ensures;

    lemma_segments_counted(files, name);
    assert(held.contains(name) <==> held.to_multiset().count(name) > 0);
    assert(files.contains(name + ".eddn"@) <==> files.to_multiset().count(name + ".eddn"@) > 0);
}

proof fn lemma_segments_counted(files: Seq<Seq<char>>, name: Seq<char>)
    ensures
        segments_of(files).to_multiset().count(name) == if opened_at(name) is Some {
            files.to_multiset().count(name + ".eddn"@)
        } else {
            0
        },
    decreases files.len(),
{
    broadcast use vstd::seq_lib::group_to_multiset_ensures;

    let wanted = name + ".eddn"@;
    if files.len() > 0 {
        let before = files.drop_last();
        let file = files.last();
        lemma_segments_counted(before, name);
        assert(files =~= before.push(file));
        vstd::seq_lib::to_multiset_build(before, file);
        a_file_holds_the_segment_it_is_named_for(name);
        match segment_of(file) {
            Some(held) => {
                vstd::seq_lib::to_multiset_build(segments_of(before), held);
                assert(file =~= held + ".eddn"@);
                if held == name {
                    assert(file == wanted);
                }
            },
            None => {},
        }
    }
}

} // verus!
