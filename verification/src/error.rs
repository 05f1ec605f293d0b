//! Everything that can come back in place of a message.

use crate::text::{
    boundary_before, boundary_from, decimal, decimal_text, find_boundary, find_boundary_before,
    slice, the_end_is_a_boundary, the_last_boundary_is_close, the_next_boundary_is_close,
};
use vstd::prelude::*;
use vstd::string::{StringExecFns, StringSliceAdditionalSpecFns};
use vstd::utf8::{
    decode_utf8, decode_utf8_encode_utf8, decode_utf8_split, encode_utf8, encode_utf8_decode_utf8,
    encode_utf8_valid_utf8, is_char_boundary, is_char_boundary_iff_not_is_continuation_byte,
    is_char_boundary_start_end_of_seq, valid_utf8, valid_utf8_split,
};

verus! {

/// How much of the message to show either side of where reading stopped
///
/// A message runs to hundreds of fields and an outfitting one to thousands, so
/// the whole of it is no use in a log line. What is wanted is the field that
/// would not read, and that is at the offset the error carries.
pub const NEAR: usize = 60;

/// How much of a message to show where there is no offset to point at
///
/// Enough for the whole of a journal, scan or signal message, which is what
/// these failures are. An outfitting message runs to tens of thousands of
/// characters and is cut off, and [`Error::json`] is there for whoever wants
/// the rest of it.
pub const SHOWN: usize = 2000;

/// Why a message would not read, and where reading stopped
///
/// A line of zero is nowhere in particular: a payload is read out of a value
/// rather than out of the text it arrived as, and a value carries no offsets.
#[derive(Debug)]
pub struct Failure {
    /// The reason, in words, with its place where it has one.
    pub said: String,
    /// The line reading stopped on, counted from one.
    pub line: usize,
    /// The column reading stopped at, counted from one.
    pub column: usize,
}

/// What stopped a message from being decompressed
#[derive(Clone, Copy, Debug, PartialEq, Eq, Structural)]
pub enum Inflation {
    FailedCannotMakeProgress,
    BadParam,
    Adler32Mismatch,
    Failed,
    Done,
    NeedsMoreInput,
    HasMoreOutput,
}

impl Inflation {
    /// The status by name.
    pub open spec fn named(self) -> Seq<char> {
        match self {
            Inflation::FailedCannotMakeProgress => "FailedCannotMakeProgress"@,
            Inflation::BadParam => "BadParam"@,
            Inflation::Adler32Mismatch => "Adler32Mismatch"@,
            Inflation::Failed => "Failed"@,
            Inflation::Done => "Done"@,
            Inflation::NeedsMoreInput => "NeedsMoreInput"@,
            Inflation::HasMoreOutput => "HasMoreOutput"@,
        }
    }

    /// The status by name.
    pub fn name(self) -> (name: &'static str)
        ensures
            name@ == self.named(),
    {
        match self {
            Inflation::FailedCannotMakeProgress => "FailedCannotMakeProgress",
            Inflation::BadParam => "BadParam",
            Inflation::Adler32Mismatch => "Adler32Mismatch",
            Inflation::Failed => "Failed",
            Inflation::Done => "Done",
            Inflation::NeedsMoreInput => "NeedsMoreInput",
            Inflation::HasMoreOutput => "HasMoreOutput",
        }
    }
}

/// The kind of thing that went wrong with a spool's files
#[derive(Clone, Copy, Debug, PartialEq, Eq, Structural)]
pub enum FaultKind {
    /// What was asked for is not there.
    NotFound,
    /// What is there is not what it should be.
    InvalidData,
    /// What was handed over cannot be written down.
    InvalidInput,
    /// The file system would not do what was asked.
    Other,
}

/// What went wrong with a spool's files
#[derive(Debug)]
pub struct Fault {
    pub kind: FaultKind,
    pub message: String,
}

/// Anything that can come back in place of a message.
#[allow(inconsistent_fields)]
#[derive(Debug)]
pub enum Error {
    /// The socket itself failed.
    Socket(String),
    /// A message arrived that is not the zlib EDDN sends.
    Decompress(Inflation),
    /// A message arrived that decompressed but is not an envelope.
    Parse {
        /// Why it would not read, and where reading stopped.
        source: Failure,
        /// The message itself, kept so the offset above can be looked up
        ///
        /// Without it the error names a type and a position in a message
        /// nobody has, which says that something in the feed is wrong and
        /// nothing about what. The game adds fields and changes their types,
        /// so this is the ordinary way to find the next one.
        json: String,
    },
    /// A spool's files failed.
    Spool {
        /// The spool's directory.
        path: String,
        /// What went wrong there.
        source: Fault,
    },
}

/// Where a line starts, in bytes: after so many newlines, or at the end where
/// there are fewer.
pub open spec fn line_start(bytes: Seq<u8>, newlines: nat) -> nat
    decreases bytes.len(),
{
    if newlines == 0 || bytes.len() == 0 {
        0
    } else if bytes[0] == 10 {
        1 + line_start(bytes.skip(1), (newlines - 1) as nat)
    } else {
        1 + line_start(bytes.skip(1), newlines)
    }
}

/// The byte a line and a column counted from one point at, or the end of the
/// text where they point past it.
pub open spec fn pointed_at(bytes: Seq<u8>, line: nat, column: nat) -> int {
    let before = if line == 0 { 0 } else { (line - 1) as nat };
    let along = if column == 0 { 0 } else { (column - 1) as nat };
    let at = line_start(bytes, before) + along;
    if at < bytes.len() {
        at as int
    } else {
        bytes.len() as int
    }
}

/// The text around where reading stopped: sixty bytes either way where there
/// are as many, snapped outward to whole characters.
pub open spec fn window_near(bytes: Seq<u8>, line: nat, column: nat) -> Seq<u8> {
    let at = pointed_at(bytes, line, column);
    let earliest = if at < NEAR { 0 } else { at - NEAR };
    let latest = if at + NEAR < bytes.len() { at + NEAR } else { bytes.len() as int };
    bytes.subrange(
        boundary_before(bytes, earliest),
        boundary_from(bytes, latest, bytes.len() as int),
    )
}

/// How many bytes of a text are shown where there is no offset to point at.
pub open spec fn shown_length(bytes: Seq<u8>) -> int {
    if SHOWN <= bytes.len() {
        boundary_from(bytes, SHOWN as int, bytes.len() as int)
    } else {
        bytes.len() as int
    }
}

/// The characters around where reading stopped.
pub open spec fn near_text(json: Seq<char>, line: nat, column: nat) -> Seq<char> {
    decode_utf8(window_near(encode_utf8(json), line, column))
}

/// A message as it is shown with an error: the part near where reading
/// stopped, or the front of it where it stopped nowhere in particular.
pub open spec fn message_shown(source: Failure, json: Seq<char>) -> Seq<char> {
    let bytes = encode_utf8(json);
    let to = shown_length(bytes);
    if source.line != 0 {
        ", near: "@ + near_text(json, source.line as nat, source.column as nat)
    } else if to < bytes.len() {
        ", message: "@ + decode_utf8(bytes.take(to)) + "... ("@ + decimal(bytes.len())
            + " characters in all)"@
    } else {
        ", message: "@ + json
    }
}

/// Where so many newlines end, in bytes.
fn find_line(bytes: &[u8], newlines: usize) -> (at: usize)
    ensures
        at == line_start(bytes@, newlines as nat),
        at <= bytes@.len(),
{
    let mut at: usize = 0;
    let mut left: usize = newlines;
    assert(bytes@.skip(0) == bytes@);
    while left > 0 && at < bytes.len()
        invariant
            at <= bytes.len(),
            line_start(bytes@, newlines as nat) == at + line_start(
                bytes@.skip(at as int),
                left as nat,
            ),
        decreases bytes.len() - at,
    {
        assert(bytes@.skip(at as int).skip(1) == bytes@.skip(at + 1));
        if bytes[at] == 10 {
            left -= 1;
        }
        at += 1;
    }
    at
}

impl Error {
    /// The message around where reading stopped, where there is a message and
    /// reading stopped somewhere in particular.
    pub open spec fn nearby(self) -> Option<Seq<char>> {
        match self {
            Error::Parse { source, json } if source.line != 0 => Some(
                near_text(json@, source.line as nat, source.column as nat),
            ),
            _ => None,
        }
    }

    /// The message that would not read, where there is one.
    pub open spec fn unread(self) -> Option<Seq<char>> {
        match self {
            Error::Parse { json, .. } => Some(json@),
            _ => None,
        }
    }

    /// The message around where reading stopped
    ///
    /// EDDN sends a message as one line, so the error's column is an offset
    /// into it and the field that would not read sits at that offset. The
    /// window is snapped outward to character boundaries, since a message
    /// carries system and commander names in every alphabet the game allows.
    ///
    /// [`None`] for anything but a parse, and for a parse that stopped nowhere
    /// in particular: pointing at the front of the envelope would read as an
    /// answer and is not one, so [`Error::json`] is what to go on there.
    pub fn near(&self) -> (near: Option<&str>)
        ensures
            match near {
                Some(near) => self.nearby() == Some(near@),
                None => self.nearby() is None,
            },
    {
        match self {
            Error::Parse { source, json } => {
                if source.line == 0 {
                    return None;
                }
                let text: &str = json.as_str();
                let bytes: &[u8] = text.as_bytes();
                let len: usize = bytes.len();
                let line: usize = source.line - 1;
                let start: usize = find_line(bytes, line);
                let along: usize = if source.column == 0 { 0 } else { source.column - 1 };
                let at: usize = if along < len - start { start + along } else { len };
                let earliest: usize = if at < NEAR { 0 } else { at - NEAR };
                let latest: usize = if NEAR < len - at { at + NEAR } else { len };
                proof {
                    encode_utf8_valid_utf8(text@);
                    the_last_boundary_is_close(bytes@, earliest as int);
                    the_end_is_a_boundary(bytes@, latest as int);
                }
                let from = find_boundary_before(text, earliest);
                let to = find_boundary(text, latest, len);
                let near = slice(text, from, to);
                proof {
                    encode_utf8_decode_utf8(near@);
                }
                Some(near)
            },
            _ => None,
        }
    }

    /// The whole message that would not read
    ///
    /// [`None`] for anything but a parse. What it is for is the case
    /// [`Error::near`] cannot answer: a payload reports no offset, and the
    /// field that would not read is somewhere in here.
    pub fn json(&self) -> (text: Option<&str>)
        ensures
            match text {
                Some(text) => self.unread() == Some(text@),
                None => self.unread() is None,
            },
    {
        match self {
            Error::Parse { json, .. } => Some(json.as_str()),
            _ => None,
        }
    }

    /// The error in words, with enough of the message to find it by.
    pub open spec fn in_words(self) -> Seq<char> {
        match self {
            Error::Socket(err) => "socket: "@ + err@,
            Error::Decompress(status) => "decompress: "@ + status.named(),
            Error::Parse { source, json } => "parse: "@ + source.said@ + message_shown(
                source,
                json@,
            ),
            Error::Spool { path, source } => "spool "@ + path@ + ": "@ + source.message@,
        }
    }

    /// The error in words
    ///
    /// A parse shows whichever of the two locates it: the window where there is
    /// an offset to take one around, and the message itself where there is not.
    /// Either way the line is enough to find the field by, which is the whole
    /// point of reporting one.
    pub fn said(&self) -> (text: String)
        ensures
            text@ == self.in_words(),
    {
        match self {
            Error::Socket(err) => "socket: ".to_owned().concat(err.as_str()),
            Error::Decompress(status) => "decompress: ".to_owned().concat(status.name()),
            Error::Parse { source, json } => {
                let mut text = "parse: ".to_owned();
                text.append(source.said.as_str());
                let ghost start = text@;
                let ghost bytes = encode_utf8(json@);
                if let Some(near) = self.near() {
                    text.append(", near: ");
                    text.append(near);
                    assert(text@ == start + message_shown(*source, json@));
                    return text;
                }
                let message: &str = json.as_str();
                let len: usize = message.as_bytes().len();
                proof {
                    encode_utf8_valid_utf8(message@);
                    the_end_is_a_boundary(
                        bytes,
                        if SHOWN <= len {
                            SHOWN as int
                        } else {
                            len as int
                        },
                    );
                    is_char_boundary_start_end_of_seq(bytes);
                }
                let to: usize = if SHOWN <= len { find_boundary(message, SHOWN, len) } else { len };
                let shown = slice(message, 0, to);
                text.append(", message: ");
                text.append(shown);
                proof {
                    encode_utf8_decode_utf8(shown@);
                    encode_utf8_decode_utf8(json@);
                    assert(shown.spec_bytes() == bytes.take(to as int));
                    if to == len {
                        assert(bytes.take(to as int) == bytes);
                    }
                }
                if to < len {
                    text.append("... (");
                    let count = decimal_text(len as u128);
                    text.append(count.as_str());
                    text.append(" characters in all)");
                }
                assert(text@ == start + message_shown(*source, json@));
                text
            },
            Error::Spool { path, source } => {
                let mut text = "spool ".to_owned();
                text.append(path.as_str());
                text.append(": ");
                text.append(source.message.as_str());
                text
            },
        }
    }
}

/// The window shown is a part of the message that holds the place reading
/// stopped at, and on either side of it at least sixty bytes where the text has
/// as many, all that it has where it has fewer, and never more than sixty-three.
pub proof fn the_window_holds_the_place(json: Seq<char>, line: nat, column: nat)
    ensures
        ({
            let bytes = encode_utf8(json);
            let at = pointed_at(bytes, line, column);
            exists|from: int, to: int|
                0 <= from <= at <= to <= bytes.len() && at - from <= 63 && to - at <= 63 && (from
                    == 0 || at - from >= 60) && (to == bytes.len() || to - at >= 60)
                    && window_near(bytes, line, column) == #[trigger] bytes.subrange(from, to)
                    && encode_utf8(near_text(json, line, column)) == bytes.subrange(from, to)
                    && json == decode_utf8(bytes.subrange(0, from)) + near_text(json, line, column)
                    + decode_utf8(bytes.subrange(to, bytes.len() as int))
        }),
{
    let bytes = encode_utf8(json);
    encode_utf8_valid_utf8(json);
    encode_utf8_decode_utf8(json);
    lemma_line_start(bytes, if line == 0 {
        0
    } else {
        (line - 1) as nat
    });
    let at = pointed_at(bytes, line, column);
    let earliest = if at < NEAR { 0 } else { at - NEAR };
    let latest = if at + NEAR < bytes.len() { at + NEAR } else { bytes.len() as int };
    the_last_boundary_is_close(bytes, earliest);
    the_end_is_a_boundary(bytes, latest);
    the_next_boundary_is_close(bytes, latest);
    let from = boundary_before(bytes, earliest);
    let to = boundary_from(bytes, latest, bytes.len() as int);
    lemma_parts(bytes, from, to);
    assert(window_near(bytes, line, column) == bytes.subrange(from, to));
}

/// A text cut at two boundaries is its three parts one after another.
proof fn lemma_parts(bytes: Seq<u8>, from: int, to: int)
    requires
        valid_utf8(bytes),
        0 <= from <= to <= bytes.len(),
        is_char_boundary(bytes, from),
        is_char_boundary(bytes, to),
    ensures
        decode_utf8(bytes) == decode_utf8(bytes.subrange(0, from)) + decode_utf8(
            bytes.subrange(from, to),
        ) + decode_utf8(bytes.subrange(to, bytes.len() as int)),
        encode_utf8(decode_utf8(bytes.subrange(from, to))) == bytes.subrange(from, to),
{
    let front = bytes.subrange(0, to);
    valid_utf8_split(bytes, to);
    decode_utf8_split(bytes, to);
    valid_utf8_split(bytes, from);
    if from < front.len() {
        is_char_boundary_iff_not_is_continuation_byte(bytes, from);
        is_char_boundary_iff_not_is_continuation_byte(front, from);
        assert(front[from] == bytes[from]);
    } else {
        is_char_boundary_start_end_of_seq(front);
    }
    valid_utf8_split(front, from);
    decode_utf8_split(front, from);
    assert(front.subrange(0, from) == bytes.subrange(0, from));
    assert(front.subrange(from, to) == bytes.subrange(from, to));
    decode_utf8_encode_utf8(bytes.subrange(from, to));
}

/// How many newlines there are in some bytes.
pub open spec fn newlines_in(bytes: Seq<u8>) -> nat
    decreases bytes.len(),
{
    if bytes.len() == 0 {
        0
    } else {
        newlines_in(bytes.skip(1)) + if bytes[0] == 10 {
            1nat
        } else {
            0
        }
    }
}

/// A line and a column counted from one are a place in a text: past the lines
/// before it, and so far along from there. A place the text does not reach is
/// its end.
pub proof fn a_place_is_counted_from_one(
    lines: Seq<u8>,
    rest: Seq<u8>,
    line: nat,
    column: nat,
)
    requires
        line >= 1 && column >= 1,
        newlines_in(lines) == line - 1,
        lines.len() > 0 ==> lines.last() == 10,
    ensures
        column <= rest.len() ==> pointed_at(lines + rest, line, column) == lines.len() + column
            - 1,
        column > rest.len() ==> pointed_at(lines + rest, line, column) == (lines + rest).len(),
        pointed_at(lines + rest, line, 0) == pointed_at(lines + rest, line, 1),
{
    lemma_lines(lines, rest);
}

/// Where a text has fewer lines than are counted to, the place is its end.
pub proof fn a_line_past_the_last_is_the_end(bytes: Seq<u8>, line: nat, column: nat)
    requires
        newlines_in(bytes) + 1 < line,
    ensures
        pointed_at(bytes, line, column) == bytes.len(),
{
    lemma_lines_short(bytes, (line - 1) as nat);
}

proof fn lemma_lines(lines: Seq<u8>, rest: Seq<u8>)
    requires
        lines.len() > 0 ==> lines.last() == 10,
    ensures
        line_start(lines + rest, newlines_in(lines)) == lines.len(),
    decreases lines.len(),
{
    if lines.len() > 0 {
        let tail = lines.skip(1);
        assert((lines + rest).skip(1) == tail + rest);
        if tail.len() > 0 {
            assert(tail.last() == lines.last());
            lemma_some_newline(tail);
        }
        lemma_lines(tail, rest);
    }
}

proof fn lemma_some_newline(bytes: Seq<u8>)
    requires
        bytes.len() > 0,
        bytes.last() == 10,
    ensures
        newlines_in(bytes) > 0,
    decreases bytes.len(),
{
    if bytes.len() > 1 {
        assert(bytes.skip(1).last() == bytes.last());
        lemma_some_newline(bytes.skip(1));
    }
}

proof fn lemma_lines_short(bytes: Seq<u8>, newlines: nat)
    requires
        newlines_in(bytes) < newlines,
    ensures
        line_start(bytes, newlines) == bytes.len(),
    decreases bytes.len(),
{
    if bytes.len() > 0 {
        if bytes[0] == 10 {
            lemma_lines_short(bytes.skip(1), (newlines - 1) as nat);
        } else {
            lemma_lines_short(bytes.skip(1), newlines);
        }
    }
}

/// An error says what failed and why: a socket's reason, a decompression's
/// status, what a message would not read as, and a spool's directory with what
/// went wrong there.
pub proof fn an_error_says_what_failed_and_why(err: Error)
    ensures
        match err {
            Error::Socket(reason) => "socket: "@.is_prefix_of(err.in_words())
                && reason@.is_suffix_of(err.in_words()),
            Error::Decompress(status) => "decompress: "@.is_prefix_of(err.in_words())
                && status.named().is_suffix_of(err.in_words()),
            Error::Parse { source, .. } => ("parse: "@ + source.said@).is_prefix_of(
                err.in_words(),
            ),
            Error::Spool { path, source } => ("spool "@ + path@ + ": "@).is_prefix_of(
                err.in_words(),
            ) && source.message@.is_suffix_of(err.in_words()),
        },
{
    let words = err.in_words();
    match err {
        Error::Socket(reason) => {
            assert("socket: "@ =~= words.take("socket: "@.len() as int));
            assert(reason@ =~= words.skip(words.len() - reason@.len()));
        },
        Error::Decompress(status) => {
            assert("decompress: "@ =~= words.take("decompress: "@.len() as int));
            assert(status.named() =~= words.skip(words.len() - status.named().len()));
        },
        Error::Parse { source, .. } => {
            let front = "parse: "@ + source.said@;
            assert(front =~= words.take(front.len() as int));
        },
        Error::Spool { path, source } => {
            let front = "spool "@ + path@ + ": "@;
            assert(front =~= words.take(front.len() as int));
            assert(source.message@ =~= words.skip(words.len() - source.message@.len()));
        },
    }
}

/// An error of a parse ends in enough of the message to find the field by: what
/// is near the place reading stopped at, where it stopped somewhere in
/// particular, and otherwise the message, whole where it has fewer than two
/// thousand bytes.
pub proof fn an_unread_message_is_shown(source: Failure, json: String)
    ensures
        ({
            let err = Error::Parse { source, json };
            &&& err.unread() == Some(json@)
            &&& err.nearby() is Some <==> source.line != 0
            &&& source.line != 0 ==> err.nearby() == Some(
                near_text(json@, source.line as nat, source.column as nat),
            ) && (", near: "@ + err.nearby()->0).is_suffix_of(err.in_words())
            &&& source.line == 0 && encode_utf8(json@).len() < 2000 ==> (", message: "@
                + json@).is_suffix_of(err.in_words())
        }),
{
    let err = Error::Parse { source, json };
    let words = err.in_words();
    let tail = message_shown(source, json@);
    assert(tail =~= words.skip(words.len() - tail.len()));
}

/// A longer message is shown up to the first whole character past two thousand
/// bytes, with how many there are in all where that is not the end of it.
pub proof fn a_long_message_is_cut_short(source: Failure, json: String)
    requires
        source.line == 0,
        encode_utf8(json@).len() >= 2000,
    ensures
        ({
            let words = (Error::Parse { source, json }).in_words();
            let bytes = encode_utf8(json@);
            let front = "parse: "@ + source.said@ + ", message: "@;
            exists|shown: Seq<char>, rest: Seq<char>| #[trigger]
                (shown + rest) == json@ && 2000 <= encode_utf8(shown).len() <= 2003 && if rest.len()
                    == 0 {
                    words == front + shown
                } else {
                    words == front + shown + "... ("@ + decimal(bytes.len())
                        + " characters in all)"@
                }
        }),
{
    let bytes = encode_utf8(json@);
    let to = shown_length(bytes);
    let end = bytes.len() as int;
    encode_utf8_valid_utf8(json@);
    encode_utf8_decode_utf8(json@);
    the_end_is_a_boundary(bytes, 2000);
    the_next_boundary_is_close(bytes, 2000);
    is_char_boundary_start_end_of_seq(bytes);
    lemma_parts(bytes, 0, to);
    lemma_parts(bytes, to, end);
    let shown = decode_utf8(bytes.take(to));
    let rest = decode_utf8(bytes.subrange(to, end));
    assert(bytes.take(to) == bytes.subrange(0, to));
    assert(bytes.subrange(0, 0) == Seq::<u8>::empty());
    assert(shown + rest =~= json@);
    let words = (Error::Parse { source, json }).in_words();
    let front = "parse: "@ + source.said@ + ", message: "@;
    if to < end {
        if rest.len() == 0 {
            assert(rest == Seq::<char>::empty());
            assert(encode_utf8(rest).len() == 0);
        }
        assert(words =~= front + shown + "... ("@ + decimal(bytes.len()) + " characters in all)"@);
    } else {
        assert(bytes.subrange(to, end) == Seq::<u8>::empty());
        assert(words =~= front + shown);
    }
}

/// Only a parse has a message to show.
pub proof fn only_a_parse_has_a_message(err: Error)
    ensures
        err.unread() is Some <==> err is Parse,
        err.nearby() is Some ==> err is Parse,
{
}

/// A decompression's status is called what it is.
pub proof fn a_status_is_called_what_it_is(status: Inflation)
    ensures
        status is FailedCannotMakeProgress <==> status.named() == "FailedCannotMakeProgress"@,
        status is BadParam <==> status.named() == "BadParam"@,
        status is Adler32Mismatch <==> status.named() == "Adler32Mismatch"@,
        status is Failed <==> status.named() == "Failed"@,
        status is Done <==> status.named() == "Done"@,
        status is NeedsMoreInput <==> status.named() == "NeedsMoreInput"@,
        status is HasMoreOutput <==> status.named() == "HasMoreOutput"@,
{
    reveal_strlit("FailedCannotMakeProgress");
    reveal_strlit("BadParam");
    reveal_strlit("Adler32Mismatch");
    reveal_strlit("Failed");
    reveal_strlit("Done");
    reveal_strlit("NeedsMoreInput");
    reveal_strlit("HasMoreOutput");
    assert("FailedCannotMakeProgress"@.len() == 24);
    assert("BadParam"@.len() == 8);
    assert("Adler32Mismatch"@.len() == 15);
    assert("Failed"@.len() == 6);
    assert("Done"@.len() == 4);
    assert("NeedsMoreInput"@.len() == 14);
    assert("HasMoreOutput"@.len() == 13);
}

proof fn lemma_line_start(bytes: Seq<u8>, newlines: nat)
    ensures
        line_start(bytes, newlines) <= bytes.len(),
    decreases bytes.len(),
{
    if newlines > 0 && bytes.len() > 0 {
        if bytes[0] == 10 {
            lemma_line_start(bytes.skip(1), (newlines - 1) as nat);
        } else {
            lemma_line_start(bytes.skip(1), newlines);
        }
    }
}

} // verus!
