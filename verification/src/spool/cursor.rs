//! Cursors: where each consumer of a spool has got to.
//!
//! A cursor is one file holding a segment's file name and an offset into it,
//! parted by a space and ended by a newline.

use crate::error::{Fault, FaultKind};
use crate::json::maybe;
use crate::position::{place, Position};
use crate::spool::segment::SUFFIX;
use crate::text::{
    a_part_stands_in_the_whole, decimal, decimal_text, decimals_read_back, holds, is_space, less,
    parse_number, quote, quoted, read_number, sorting_is_total, sorting_is_transitive, sorts_before,
    strip_suffix, stripped, texts, words, words_of, words_split,
};
use vstd::prelude::*;
use vstd::string::StringExecFns;

verus! {

/// Where consumer positions live, one file each.
pub const CURSORS: &'static str = "cursors";

/// A position as it is written down.
pub open spec fn cursor_written(at: (Seq<char>, u64)) -> Seq<char> {
    at.0 + SUFFIX@ + " "@ + decimal(at.1 as nat) + "\n"@
}

/// The position a cursor's text holds, where it holds one: two words, the
/// segment with or without its suffix, and a number.
pub open spec fn cursor_read(text: Seq<char>) -> Option<(Seq<char>, u64)> {
    let read = words_of(text);
    if read.len() == 2 {
        let segment = match stripped(read[0], SUFFIX@) {
            Some(name) => name,
            None => read[0],
        };
        match read_number(read[1]) {
            Some(offset) => Some((segment, offset)),
            None => None,
        }
    } else {
        None
    }
}

/// What is said of a text that is not a cursor.
pub open spec fn not_a_cursor(path: Seq<char>, text: Seq<char>) -> Seq<char> {
    path + ": "@ + quoted(text) + " is not a cursor"@
}

/// A cursor reads back as the position that was written, where the segment's
/// name has no white space in it.
pub proof fn a_cursor_reads_back(at: (Seq<char>, u64))
    requires
        forall|i: int| 0 <= i < at.0.len() ==> !is_space(#[trigger] at.0[i]),
    ensures
        cursor_read(cursor_written(at)) == Some(at),
{
    reveal_strlit(".eddn");
    reveal_strlit(" ");
    reveal_strlit("\n");
    let file = at.0 + SUFFIX@;
    let number = decimal(at.1 as nat);
    decimals_read_back(at.1 as nat);
    assert forall|i: int| 0 <= i < file.len() implies !is_space(#[trigger] file[i]) by {
        if i < at.0.len() {
            assert(file[i] == at.0[i]);
        }
    }
    words_split(number, '\n', Seq::empty());
    let tail = number.push('\n') + Seq::<char>::empty();
    assert(tail == number + "\n"@);
    words_split(file, ' ', tail);
    assert(cursor_written(at) == file.push(' ') + tail);
    assert(words_of(Seq::<char>::empty()) == Seq::<Seq<char>>::empty());
    let read = words_of(cursor_written(at));
    assert(read == seq![file, number]);
    assert(file.subrange(file.len() - SUFFIX@.len(), file.len() as int) == SUFFIX@);
    assert(file.take(file.len() - SUFFIX@.len()) == at.0);
}

/// A position as it is written down.
pub fn write_cursor(at: &Position) -> (text: String)
    ensures
        text@ == cursor_written(at@),
{
    let mut text = at.segment.clone();
    text.append(SUFFIX);
    text.append(" ");
    let offset = decimal_text(at.offset as u128);
    text.append(offset.as_str());
    text.append("\n");
    text
}

/// The file a consumer's cursor is written to first.
pub open spec fn scratch(name: Seq<char>) -> Seq<char> {
    "."@ + name + ".tmp"@
}

/// The file a cursor is written to before it takes the place of the one before
/// it, so a cursor is the one a consumer wrote or the one before it and never
/// half of each.
pub fn scratch_name(name: &str) -> (file: String)
    ensures
        file@ == scratch(name@),
{
    let mut file = ".".to_owned();
    file.append(name);
    file.append(".tmp");
    file
}

/// What comes of reading a consumer's file: its position, nothing where there
/// is no file, and a fault where its text is not a cursor.
pub open spec fn reads(
    path: Seq<char>,
    text: Option<Seq<char>>,
    read: Result<Option<Position>, Fault>,
) -> bool {
    match text {
        None => read is Ok && read->Ok_0 is None,
        Some(text) => match read {
            Ok(at) => at is Some && cursor_read(text) == place(at),
            Err(fault) => cursor_read(text) is None && fault.kind == FaultKind::InvalidData
                && fault.message@ == not_a_cursor(path, text),
        },
    }
}

/// One consumer's position, or nothing where it has never committed one
///
/// `text` is what its file holds, and nothing where there is no file; `path`
/// is the file's, for what is said of a text that is not a cursor.
pub fn read_cursor(path: &str, text: Option<&str>) -> (read: Result<Option<Position>, Fault>)
    ensures
        reads(
            path@,
            match text {
                Some(text) => Some(text@),
                None => None,
            },
            read,
        ),
{
    let text = match text {
        Some(text) => text,
        None => {
            return Ok(None);
        },
    };
    let read = words(text);
    assert(texts(read@).len() == read@.len());
    if read.len() == 2 {
        assert(texts(read@)[0] == read@[0]@ && texts(read@)[1] == read@[1]@);
        let segment = match strip_suffix(read[0].as_str(), SUFFIX) {
            Some(name) => name,
            None => read[0].clone(),
        };
        if let Some(offset) = parse_number(read[1].as_str()) {
            return Ok(Some(Position { segment, offset }));
        }
    }
    let mut message = path.to_owned();
    message.append(": ");
    let text = quote(text);
    message.append(text.as_str());
    message.append(" is not a cursor");
    Err(Fault { kind: FaultKind::InvalidData, message })
}

/// A cursor's consumer, and the position it holds.
pub open spec fn held_by(cursor: (String, Position)) -> (Seq<char>, (Seq<char>, u64)) {
    (cursor.0@, cursor.1@)
}

/// The consumers and positions of some cursors.
pub open spec fn all_held_by(cursors: Seq<(String, Position)>) -> Seq<
    (Seq<char>, (Seq<char>, u64)),
> {
    Seq::new(cursors.len(), |i: int| held_by(cursors[i]))
}

/// The cursors some files hold: consumers by name, and what each one's file
/// reads as. A file that was gone by the time it was read holds none.
pub open spec fn cursors_in(files: Seq<(String, Option<String>)>) -> Seq<
    (Seq<char>, (Seq<char>, u64)),
>
    decreases files.len(),
{
    if files.len() == 0 {
        Seq::empty()
    } else {
        let before = cursors_in(files.drop_last());
        match files.last().1 {
            Some(text) => match cursor_read(text@) {
                Some(at) => before.push((files.last().0@, at)),
                None => before,
            },
            None => before,
        }
    }
}

/// Whether a file holds something other than a cursor.
pub open spec fn spoilt(file: (String, Option<String>)) -> bool {
    match file.1 {
        Some(text) => cursor_read(text@) is None,
        None => false,
    }
}

/// Whether cursors stand in the order of their consumers' names.
pub open spec fn by_consumer(cursors: Seq<(Seq<char>, (Seq<char>, u64))>) -> bool {
    forall|i: int, j: int|
        0 <= i < j < cursors.len() ==> !sorts_before(
            (#[trigger] cursors[j]).0,
            (#[trigger] cursors[i]).0,
        )
}

/// Puts a cursor in its place among cursors in order of their consumers.
fn insert_cursor(held: &mut Vec<(String, Position)>, name: String, at: Position)
    requires
        by_consumer(all_held_by(old(held)@)),
    ensures
        by_consumer(all_held_by(final(held)@)),
        all_held_by(final(held)@).to_multiset() == all_held_by(old(held)@).to_multiset().insert(
            (name@, at@),
        ),
{
    let mut place: usize = 0;
    while place < held.len() && !less(name.as_str(), held[place].0.as_str())
        invariant
            place <= held.len(),
            forall|k: int| 0 <= k < place ==> !sorts_before(name@, (#[trigger] held@[k]).0@),
        decreases held.len() - place,
    {
        place += 1;
    }
    let ghost before = all_held_by(held@);
    let ghost added = (name@, at@);
    proof {
        assert forall|k: int| 0 <= k < place implies !sorts_before(
            added.0,
            (#[trigger] before[k]).0,
        ) by {
            assert(before[k].0 == held@[k].0@);
        }
        assert(place < before.len() ==> sorts_before(added.0, before[place as int].0));
    }
    held.insert(place, (name, at));
    proof {
        broadcast use vstd::seq_lib::group_to_multiset_ensures;

        let after = all_held_by(held@);
        assert(after == before.insert(place as int, added));
        assert(after.remove(place as int) == before);
        assert(after[place as int] == added);
        assert(after.contains(added));
        assert(after.to_multiset().remove(added).insert(added) == after.to_multiset());
        assert forall|i: int, j: int| 0 <= i < j < after.len() implies !sorts_before(
            (#[trigger] after[j]).0,
            (#[trigger] after[i]).0,
        ) by {
            if i == place {
                assert(after[j] == before[j - 1]);
                if sorts_before(after[j].0, added.0) {
                    sorting_is_transitive(after[j].0, added.0, before[place as int].0);
                    sorting_is_total(before[place as int].0, before[place as int].0);
                }
            } else if j == place {
                assert(after[i] == before[i]);
            } else {
                assert(after[i] == before[if i < place { i } else { i - 1 }]);
                assert(after[j] == before[if j < place { j } else { j - 1 }]);
            }
        }
    }
}

/// What comes of reading a directory of cursors: every position by consumer, or
/// a fault of the first file that holds something else.
pub open spec fn reads_all(
    dir: Seq<char>,
    files: Seq<(String, Option<String>)>,
    read: Result<Vec<(String, Position)>, Fault>,
) -> bool {
    match read {
        Ok(held) => by_consumer(all_held_by(held@)) && all_held_by(held@).to_multiset()
            == cursors_in(files).to_multiset() && (forall|i: int|
            0 <= i < files.len() ==> !spoilt(#[trigger] files[i])),
        Err(fault) => fault.kind == FaultKind::InvalidData && exists|i: int|
            0 <= i < files.len() && spoilt(#[trigger] files[i]) && (forall|k: int|
                0 <= k < i ==> !spoilt(#[trigger] files[k])) && fault.message@ == not_a_cursor(
                dir + "/"@ + files[i].0@,
                files[i].1->0@,
            ),
    }
}

/// Every consumer's position, by name
///
/// `files` is what the cursor directory holds: each file's name, and its text
/// unless it was gone by the time it was read. `dir` is the directory's path.
pub fn cursors(dir: &str, files: &Vec<(String, Option<String>)>) -> (read: Result<
    Vec<(String, Position)>,
    Fault,
>)
    ensures
        reads_all(dir@, files@, read),
{
    let mut held: Vec<(String, Position)> = Vec::new();
    let mut i: usize = 0;
    assert(all_held_by(held@) == cursors_in(files@.take(0)));
    while i < files.len()
        invariant
            i <= files.len(),
            by_consumer(all_held_by(held@)),
            all_held_by(held@).to_multiset() == cursors_in(files@.take(i as int)).to_multiset(),
            forall|k: int| 0 <= k < i ==> !spoilt(#[trigger] files@[k]),
        decreases files.len() - i,
    {
        let ghost seen = files@.take(i as int);
        assert(files@.take(i + 1).drop_last() == seen);
        assert(files@.take(i + 1).last() == files@[i as int]);
        let (name, text) = &files[i];
        let text: Option<&str> = match text {
            Some(text) => Some(text.as_str()),
            None => None,
        };
        let mut path = dir.to_owned();
        path.append("/");
        path.append(name.as_str());
        match read_cursor(path.as_str(), text) {
            Ok(Some(at)) => {
                proof {
                    vstd::seq_lib::to_multiset_build(cursors_in(seen), (name@, at@));
                }
                insert_cursor(&mut held, name.clone(), at);
            },
            Ok(None) => {},
            Err(fault) => {
                assert(spoilt(files@[i as int]));
                return Err(fault);
            },
        }
        i += 1;
    }
    assert(files@.take(i as int) == files@);
    Ok(held)
}

/// What is said of the files that hold something other than a cursor, in order.
pub open spec fn spoilt_messages(dir: Seq<char>, files: Seq<(String, Option<String>)>) -> Seq<
    Seq<char>,
>
    decreases files.len(),
{
    if files.len() == 0 {
        Seq::empty()
    } else {
        let before = spoilt_messages(dir, files.drop_last());
        let (name, text) = files.last();
        if spoilt(files.last()) {
            before.push(not_a_cursor(dir + "/"@ + name@, text->0@))
        } else {
            before
        }
    }
}

/// What comes of reading the legible among a directory of cursors: their
/// positions by consumer, and a fault of each of the rest in order.
pub open spec fn reads_legible(
    dir: Seq<char>,
    files: Seq<(String, Option<String>)>,
    held: Seq<(String, Position)>,
    faults: Seq<Fault>,
) -> bool {
    &&& by_consumer(all_held_by(held))
    &&& all_held_by(held).to_multiset() == cursors_in(files).to_multiset()
    &&& faults.len() == spoilt_messages(dir, files).len()
    &&& forall|i: int|
        0 <= i < faults.len() ==> (#[trigger] faults[i]).kind == FaultKind::InvalidData
            && faults[i].message@ == spoilt_messages(dir, files)[i]
}

/// Every consumer's position that can be read, by name, and what is wrong with
/// the rest
///
/// For what must go on whatever a cursor holds: one consumer's spoilt file
/// hides nobody else's position.
pub fn legible_cursors(dir: &str, files: &Vec<(String, Option<String>)>) -> (read: (
    Vec<(String, Position)>,
    Vec<Fault>,
))
    ensures
        reads_legible(dir@, files@, read.0@, read.1@),
{
    let mut held: Vec<(String, Position)> = Vec::new();
    let mut faults: Vec<Fault> = Vec::new();
    let mut i: usize = 0;
    assert(all_held_by(held@) == cursors_in(files@.take(0)));
    while i < files.len()
        invariant
            i <= files.len(),
            by_consumer(all_held_by(held@)),
            all_held_by(held@).to_multiset() == cursors_in(files@.take(i as int)).to_multiset(),
            faults@.len() == spoilt_messages(dir@, files@.take(i as int)).len(),
            forall|k: int|
                0 <= k < faults@.len() ==> (#[trigger] faults@[k]).kind == FaultKind::InvalidData
                    && faults@[k].message@ == spoilt_messages(dir@, files@.take(i as int))[k],
        decreases files.len() - i,
    {
        let ghost seen = files@.take(i as int);
        assert(files@.take(i + 1).drop_last() == seen);
        assert(files@.take(i + 1).last() == files@[i as int]);
        let (name, text) = &files[i];
        let text: Option<&str> = match text {
            Some(text) => Some(text.as_str()),
            None => None,
        };
        let mut path = dir.to_owned();
        path.append("/");
        path.append(name.as_str());
        match read_cursor(path.as_str(), text) {
            Ok(Some(at)) => {
                proof {
                    vstd::seq_lib::to_multiset_build(cursors_in(seen), (name@, at@));
                }
                insert_cursor(&mut held, name.clone(), at);
            },
            Ok(None) => {},
            Err(fault) => {
                faults.push(fault);
            },
        }
        i += 1;
    }
    assert(files@.take(i as int) == files@);
    (held, faults)
}

/// A text of two words is a cursor exactly where the second is a number: the
/// first is its segment, with or without the suffix, and the number its offset.
pub proof fn two_words_are_a_cursor(segment: Seq<char>, number: Seq<char>, space: char, end: char)
    requires
        segment.len() > 0 && number.len() > 0,
        forall|i: int| 0 <= i < segment.len() ==> !is_space(#[trigger] segment[i]),
        forall|i: int| 0 <= i < number.len() ==> !is_space(#[trigger] number[i]),
        is_space(space) && is_space(end),
    ensures
        ({
            let text = segment.push(space) + number.push(end);
            let suffixed = (segment + ".eddn"@).push(space) + number.push(end);
            &&& cursor_read(suffixed) is Some <==> read_number(number) is Some
            &&& read_number(number) is Some ==> cursor_read(suffixed) == Some(
                (segment, read_number(number)->0),
            )
            &&& !".eddn"@.is_suffix_of(segment) ==> cursor_read(text) == cursor_read(suffixed)
        }),
{
    reveal_strlit(".eddn");
    let file = segment + ".eddn"@;
    let tail = number.push(end) + Seq::<char>::empty();
    assert(tail =~= number.push(end));
    assert forall|i: int| 0 <= i < file.len() implies !is_space(#[trigger] file[i]) by {
        if i < segment.len() {
            assert(file[i] == segment[i]);
        }
    }
    words_split(number, end, Seq::empty());
    words_split(segment, space, tail);
    words_split(file, space, tail);
    assert(words_of(Seq::<char>::empty()) == Seq::<Seq<char>>::empty());
    assert(words_of(segment.push(space) + tail) =~= seq![segment, number]);
    assert(words_of(file.push(space) + tail) =~= seq![file, number]);
    let from = file.len() - ".eddn"@.len();
    assert(file.subrange(from, file.len() as int) =~= ".eddn"@);
    assert(file.take(from) =~= segment);
}

/// A text of any other number of words is no cursor.
pub proof fn more_or_fewer_words_are_no_cursor(text: Seq<char>)
    requires
        words_of(text).len() != 2,
    ensures
        cursor_read(text) is None,
{
}

/// Whether a consumer's file holds a position.
pub open spec fn holds_cursor(
    file: (String, Option<String>),
    who: Seq<char>,
    at: (Seq<char>, u64),
) -> bool {
    file.0@ == who && file.1 is Some && cursor_read(file.1->0@) == Some(at)
}

/// A consumer's position is read exactly where its file holds one, whatever the
/// other files hold, and each file is read once.
pub proof fn a_cursor_is_read_where_its_file_holds_it(
    files: Seq<(String, Option<String>)>,
    more: Seq<(String, Option<String>)>,
    who: Seq<char>,
    at: (Seq<char>, u64),
)
    ensures
        cursors_in(files).contains((who, at)) <==> exists|i: int|
            0 <= i < files.len() && holds_cursor(#[trigger] files[i], who, at),
        cursors_in(files + more) == cursors_in(files) + cursors_in(more),
        files.len() == 1 && holds_cursor(files[0], who, at) ==> cursors_in(files).len() == 1,
    decreases files.len() + more.len(),
{
    lemma_cursor_held(files, who, at);
    lemma_cursors_joined(files, more);
    if files.len() == 1 {
        assert(files.drop_last() == Seq::<(String, Option<String>)>::empty());
        assert(cursors_in(files.drop_last()).len() == 0);
    }
}

proof fn lemma_cursor_held(
    files: Seq<(String, Option<String>)>,
    who: Seq<char>,
    at: (Seq<char>, u64),
)
    ensures
        cursors_in(files).contains((who, at)) <==> exists|i: int|
            0 <= i < files.len() && holds_cursor(#[trigger] files[i], who, at),
    decreases files.len(),
{
    if files.len() > 0 {
        let before = files.drop_last();
        let end = files.len() - 1;
        lemma_cursor_held(before, who, at);
        let held = cursors_in(before);
        let all = cursors_in(files);
        if held.contains((who, at)) {
            let i = choose|i: int| 0 <= i < before.len() && holds_cursor(before[i], who, at);
            assert(holds_cursor(files[i], who, at));
            let k = choose|k: int| 0 <= k < held.len() && held[k] == (who, at);
            assert(all[k] == (who, at));
        } else if holds_cursor(files[end], who, at) {
            assert(all.last() == (who, at));
            assert(all.contains((who, at)));
        } else {
            if all.contains((who, at)) {
                let k = choose|k: int| 0 <= k < all.len() && all[k] == (who, at);
                if k < held.len() {
                    assert(held[k] == (who, at));
                }
            }
            assert forall|i: int| 0 <= i < files.len() implies !holds_cursor(
                #[trigger] files[i],
                who,
                at,
            ) by {
                if i < end {
                    assert(before[i] == files[i]);
                }
            }
        }
    }
}

proof fn lemma_cursors_joined(
    files: Seq<(String, Option<String>)>,
    more: Seq<(String, Option<String>)>,
)
    ensures
        cursors_in(files + more) == cursors_in(files) + cursors_in(more),
    decreases more.len(),
{
    if more.len() == 0 {
        assert(files + more =~= files);
        assert(cursors_in(files + more) =~= cursors_in(files) + cursors_in(more));
    } else {
        lemma_cursors_joined(files, more.drop_last());
        assert((files + more).drop_last() =~= files + more.drop_last());
        assert((files + more).last() == more.last());
        assert(cursors_in(files + more) =~= cursors_in(files) + cursors_in(more));
    }
}

/// Every file that holds something other than a cursor is spoken of, by its
/// path and with what it holds, and no other file is.
pub proof fn a_spoilt_file_is_spoken_of(
    dir: Seq<char>,
    files: Seq<(String, Option<String>)>,
    said: Seq<char>,
)
    ensures
        spoilt_messages(dir, files).contains(said) <==> exists|i: int|
            0 <= i < files.len() && spoilt(#[trigger] files[i]) && said == not_a_cursor(
                dir + "/"@ + files[i].0@,
                files[i].1->0@,
            ),
    decreases files.len(),
{
    if files.len() > 0 {
        let before = files.drop_last();
        let end = files.len() - 1;
        a_spoilt_file_is_spoken_of(dir, before, said);
        let held = spoilt_messages(dir, before);
        let all = spoilt_messages(dir, files);
        let last = not_a_cursor(dir + "/"@ + files[end].0@, files[end].1->0@);
        if held.contains(said) {
            let i = choose|i: int|
                0 <= i < before.len() && spoilt(before[i]) && said == not_a_cursor(
                    dir + "/"@ + before[i].0@,
                    before[i].1->0@,
                );
            assert(spoilt(files[i]));
            let k = choose|k: int| 0 <= k < held.len() && held[k] == said;
            assert(all[k] == said);
        } else if spoilt(files[end]) && said == last {
            assert(all.last() == said);
            assert(all.contains(said));
        } else {
            if all.contains(said) {
                let k = choose|k: int| 0 <= k < all.len() && all[k] == said;
                if k < held.len() {
                    assert(held[k] == said);
                }
            }
            assert forall|i: int|
                0 <= i < files.len() && spoilt(#[trigger] files[i]) implies said != not_a_cursor(
                dir + "/"@ + files[i].0@,
                files[i].1->0@,
            ) by {
                if i < end {
                    assert(before[i] == files[i]);
                }
            }
        }
    }
}

/// A spoilt file is one whose text is there and is no cursor; reading it faults
/// with its path first and its text quoted, and reading any other does not.
pub proof fn a_file_faults_where_it_is_spoilt(
    path: Seq<char>,
    text: Option<String>,
    name: String,
    read: Result<Option<Position>, Fault>,
)
    requires
        reads(path, maybe(text), read),
    ensures
        read is Err <==> spoilt((name, text)),
        spoilt((name, text)) <==> text is Some && cursor_read(text->0@) is None,
        read is Err ==> read->Err_0.kind == FaultKind::InvalidData && path.is_prefix_of(
            read->Err_0.message@,
        ) && holds(read->Err_0.message@, quoted(text->0@)),
        read is Ok ==> (read->Ok_0 is Some <==> text is Some),
        read is Ok && text is Some ==> cursor_read(text->0@) == Some(read->Ok_0->0@),
{
    if read is Err {
        let said = quoted(text->0@);
        let message = read->Err_0.message@;
        a_part_stands_in_the_whole(path + ": "@, said, " is not a cursor"@);
        assert(path =~= message.take(path.len() as int));
    }
}

/// A directory of cursors is read whole or not at all: it faults exactly where
/// one of its files is spoilt.
pub proof fn one_spoilt_file_spoils_the_reading(
    dir: Seq<char>,
    files: Seq<(String, Option<String>)>,
    read: Result<Vec<(String, Position)>, Fault>,
)
    requires
        reads_all(dir, files, read),
    ensures
        read is Err <==> exists|i: int| 0 <= i < files.len() && spoilt(#[trigger] files[i]),
        read is Err ==> spoilt_messages(dir, files).contains(read->Err_0.message@),
        read is Ok ==> forall|who: Seq<char>, at: (Seq<char>, u64)| #[trigger]
            all_held_by(read->Ok_0@).contains((who, at)) <==> exists|i: int|
                0 <= i < files.len() && holds_cursor(#[trigger] files[i], who, at),
{
    broadcast use vstd::seq_lib::group_to_multiset_ensures;

    if read is Ok {
        let held = all_held_by(read->Ok_0@);
        assert forall|who: Seq<char>, at: (Seq<char>, u64)| #[trigger]
            held.contains((who, at)) <==> exists|i: int|
                0 <= i < files.len() && holds_cursor(#[trigger] files[i], who, at) by {
            lemma_cursor_held(files, who, at);
            assert(held.contains((who, at)) <==> held.to_multiset().count((who, at)) > 0);
            assert(cursors_in(files).contains((who, at)) <==> cursors_in(
                files,
            ).to_multiset().count((who, at)) > 0);
        }
    } else {
        a_spoilt_file_is_spoken_of(dir, files, read->Err_0.message@);
    }
}

/// One consumer's spoilt file hides nobody else's position: every position a
/// file holds is read, and every spoilt file is spoken of.
pub proof fn a_spoilt_file_hides_nobody_else(
    dir: Seq<char>,
    files: Seq<(String, Option<String>)>,
    held: Seq<(String, Position)>,
    faults: Seq<Fault>,
)
    requires
        reads_legible(dir, files, held, faults),
    ensures
        forall|who: Seq<char>, at: (Seq<char>, u64)| #[trigger]
            all_held_by(held).contains((who, at)) <==> exists|i: int|
                0 <= i < files.len() && holds_cursor(#[trigger] files[i], who, at),
        faults.len() > 0 <==> exists|i: int| 0 <= i < files.len() && spoilt(#[trigger] files[i]),
        forall|i: int|
            0 <= i < files.len() && spoilt(#[trigger] files[i]) ==> exists|k: int|
                0 <= k < faults.len() && (#[trigger] faults[k]).message@ == not_a_cursor(
                    dir + "/"@ + files[i].0@,
                    files[i].1->0@,
                ),
{
    broadcast use vstd::seq_lib::group_to_multiset_ensures;

    let read = all_held_by(held);
    assert forall|who: Seq<char>, at: (Seq<char>, u64)| #[trigger]
        read.contains((who, at)) <==> exists|i: int|
            0 <= i < files.len() && holds_cursor(#[trigger] files[i], who, at) by {
        lemma_cursor_held(files, who, at);
        assert(read.contains((who, at)) <==> read.to_multiset().count((who, at)) > 0);
        assert(cursors_in(files).contains((who, at)) <==> cursors_in(files).to_multiset().count(
            (who, at),
        ) > 0);
    }
    let said = spoilt_messages(dir, files);
    assert forall|i: int| 0 <= i < files.len() && spoilt(#[trigger] files[i]) implies exists|k: int|
        0 <= k < faults.len() && (#[trigger] faults[k]).message@ == not_a_cursor(
            dir + "/"@ + files[i].0@,
            files[i].1->0@,
        ) by {
        let message = not_a_cursor(dir + "/"@ + files[i].0@, files[i].1->0@);
        a_spoilt_file_is_spoken_of(dir, files, message);
        let k = choose|k: int| 0 <= k < said.len() && said[k] == message;
        assert(faults[k].message@ == message);
    }
    if faults.len() > 0 {
        a_spoilt_file_is_spoken_of(dir, files, said[0]);
        assert(said.contains(said[0]));
    }
}

/// A cursor is written first to a file that is no consumer's own and no other
/// consumer's, and that is hidden.
pub proof fn a_scratch_file_is_nobody_elses(name: Seq<char>, other: Seq<char>)
    ensures
        scratch(name) == scratch(other) ==> name == other,
        scratch(name) != name,
        scratch(name)[0] == '.',
        ".tmp"@.is_suffix_of(scratch(name)),
        holds(scratch(name), name),
{
    reveal_strlit(".");
    reveal_strlit(".tmp");
    let file = scratch(name);
    assert(file.subrange(1, 1 + name.len() as int) =~= name);
    assert(scratch(other).subrange(1, 1 + other.len() as int) =~= other);
    assert(file.len() == name.len() + 5);
    assert(scratch(other).len() == other.len() + 5);
    assert(".tmp"@ =~= file.skip(file.len() - 4));
    a_part_stands_in_the_whole("."@, name, ".tmp"@);
}

/// Cursors are read in the order of their consumers' names.
pub proof fn cursors_come_by_name(
    dir: Seq<char>,
    files: Seq<(String, Option<String>)>,
    held: Vec<(String, Position)>,
    faults: Seq<Fault>,
    i: int,
    j: int,
)
    requires
        reads_all(dir, files, Ok(held)) || reads_legible(dir, files, held@, faults),
        0 <= i < j < held@.len(),
    ensures
        !sorts_before(held@[j].0@, held@[i].0@),
        all_held_by(held@).len() == cursors_in(files).len(),
{
    broadcast use vstd::seq_lib::group_to_multiset_ensures;

    let read = all_held_by(held@);
    assert(read[i].0 == held@[i].0@ && read[j].0 == held@[j].0@);
    assert(read.to_multiset().len() == cursors_in(files).to_multiset().len());
}

/// What is said of a file that is no cursor is its path, its text quoted, and
/// that it is none.
pub proof fn a_spoilt_file_is_said_to_be_no_cursor(
    path: Seq<char>,
    text: Seq<char>,
    fault: Fault,
)
    requires
        reads(path, Some(text), Err(fault)),
    ensures
        fault.message@ == path + ": "@ + quoted(text) + " is not a cursor"@,
{
}

} // verus!
