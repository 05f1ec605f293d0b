//! The crate's own log, kept for a window to show
//!
//! The subscriber reports the health of its connection only through its log --
//! a connection lost and regained, a gateway gone quiet -- and none of that
//! comes back through the feed. So the status shown is read from the log rather
//! than invented.

use crate::moment::{clock_text, spelled, Moment, CLOCK_FORMAT};
use crate::reporter::Level;
use crate::text::{
    a_part_stands_in_the_whole, a_text_is_strung_last, holds, same, strung,
    what_a_part_holds_the_whole_holds,
};
use std::collections::VecDeque;
use vstd::prelude::*;
use vstd::string::{StrSliceExecFns, StringExecFns};

verus! {

broadcast use vstd::std_specs::vecdeque::axiom_spec_len;

/// How many log lines to keep
///
/// A window's worth many times over. Old lines fall off the front, the same as
/// the feed's own history, so a program left running does not grow behind its
/// log.
pub const CAPACITY: usize = 1000;

/// One line the crate said, and enough to show it
#[derive(Debug)]
pub struct LogLine {
    pub level: Level,
    pub target: String,
    pub message: String,
    pub at: Moment,
}

impl Clone for LogLine {
    fn clone(&self) -> (copy: Self)
        ensures
            copy == *self,
    {
        LogLine {
            level: self.level,
            target: self.target.clone(),
            message: self.message.clone(),
            at: self.at,
        }
    }
}

/// The bounded store of log lines, and how many of them were errors and
/// warnings since each count was last cleared
#[derive(Debug)]
pub struct LogBuffer {
    pub lines: VecDeque<LogLine>,
    pub errors: u64,
    pub warnings: u64,
}

/// Whether one store is another with a line kept: the oldest dropped where it
/// was full, and the line counted where it is an error or a warning.
pub open spec fn keeps(before: LogBuffer, line: LogLine, after: LogBuffer) -> bool {
    &&& after.lines@ == if before.lines@.len() == CAPACITY {
        before.lines@.skip(1).push(line)
    } else {
        before.lines@.push(line)
    }
    &&& after.errors == before.errors + if line.level == Level::ERROR {
        1int
    } else {
        0int
    }
    &&& after.warnings == before.warnings + if line.level == Level::WARN {
        1int
    } else {
        0int
    }
}

impl LogBuffer {
    /// Whether no more lines are held than are kept.
    pub open spec fn is_bounded(self) -> bool {
        self.lines@.len() <= CAPACITY
    }

    /// A copy of every line currently held, oldest first.
    pub fn snapshot(&self) -> (lines: Vec<LogLine>)
        ensures
            lines@ == self.lines@,
    {
        let mut lines: Vec<LogLine> = Vec::new();
        let mut i: usize = 0;
        while i < self.lines.len()
            invariant
                i <= self.lines@.len(),
                lines@ == self.lines@.take(i as int),
            decreases self.lines@.len() - i,
        {
            lines.push(self.lines[i].clone());
            i += 1;
            assert(self.lines@.take(i as int) == self.lines@.take(i - 1).push(self.lines@[i - 1]));
        }
        assert(self.lines@.take(i as int) == self.lines@);
        lines
    }

    /// Keep a line, dropping the oldest if the store is full, and count it
    /// where it is an error or a warning.
    pub fn push(&mut self, line: LogLine)
        requires
            old(self).is_bounded(),
            old(self).errors < u64::MAX,
            old(self).warnings < u64::MAX,
        ensures
            final(self).is_bounded(),
            keeps(*old(self), line, *final(self)),
    {
        if matches!(line.level, Level::ERROR) {
            self.errors = self.errors + 1;
        }
        if matches!(line.level, Level::WARN) {
            self.warnings = self.warnings + 1;
        }
        if self.lines.len() >= CAPACITY {
            self.lines.pop_front();
        }
        self.lines.push_back(line);
        assert(self.lines@ =~= if old(self).lines@.len() == CAPACITY {
            old(self).lines@.skip(1).push(line)
        } else {
            old(self).lines@.push(line)
        });
    }

    /// How many errors have been said since they were last cleared.
    pub fn errors(&self) -> (errors: u64)
        ensures
            errors == self.errors,
    {
        self.errors
    }

    /// How many warnings have been said since they were last cleared.
    pub fn warnings(&self) -> (warnings: u64)
        ensures
            warnings == self.warnings,
    {
        self.warnings
    }

    /// Reset the count of errors to zero.
    pub fn clear_errors(&mut self)
        ensures
            *final(self) == (LogBuffer { errors: 0, ..*old(self) }),
    {
        self.errors = 0;
    }

    /// Reset the count of warnings to zero.
    pub fn clear_warnings(&mut self)
        ensures
            *final(self) == (LogBuffer { warnings: 0, ..*old(self) }),
    {
        self.warnings = 0;
    }
}

impl Default for LogBuffer {
    fn default() -> (log: Self)
        ensures
            log.is_bounded(),
            log.lines@.len() == 0,
            log.errors == 0,
            log.warnings == 0,
    {
        LogBuffer { lines: VecDeque::new(), errors: 0, warnings: 0 }
    }
}

/// Pulls an event's message out from the rest of its fields
///
/// The message is the human sentence and is what a log line leads with; every
/// other field is `name=value` after it. Kept apart so the sentence reads as
/// one whatever order the fields arrived in.
#[derive(Debug)]
pub struct EventVisitor {
    pub message: String,
    pub fields: String,
}

/// Whether one event is another with a field recorded: its message, or any
/// other field by name after those before it.
pub open spec fn notes_field(
    before: EventVisitor,
    name: Seq<char>,
    value: Seq<char>,
    after: EventVisitor,
) -> bool {
    if name == "message"@ {
        after.message@ == before.message@ + value && after.fields == before.fields
    } else {
        after.message == before.message && after.fields@ == before.fields@ + " "@ + name + "="@
            + value
    }
}

impl EventVisitor {
    /// An event with nothing recorded of it yet.
    pub fn new() -> (visitor: Self)
        ensures
            visitor.message@.len() == 0,
            visitor.fields@.len() == 0,
    {
        EventVisitor { message: String::new(), fields: String::new() }
    }

    /// Record one field by name, its value as `Debug` renders it.
    pub fn record_debug(&mut self, name: &str, value: &str)
        ensures
            notes_field(*old(self), name@, value@, *final(self)),
    {
        if same(name, "message") {
            self.message.append(value);
        } else {
            self.fields.append(" ");
            self.fields.append(name);
            self.fields.append("=");
            self.fields.append(value);
        }
    }

    /// The line as it is shown: the message, then the rest of the fields.
    pub open spec fn said(self) -> Seq<char> {
        self.message@ + self.fields@
    }

    /// The line as it is shown: the message, then the rest of the fields.
    pub fn line(&self) -> (line: String)
        ensures
            line@ == self.said(),
    {
        let mut line = self.message.clone();
        line.append(self.fields.as_str());
        line
    }
}

/// A level by name.
pub open spec fn level_named(level: Level) -> Seq<char> {
    match level {
        Level::ERROR => "ERROR"@,
        Level::WARN => "WARN"@,
        Level::INFO => "INFO"@,
        Level::DEBUG => "DEBUG"@,
        Level::TRACE => "TRACE"@,
    }
}

/// A level by name.
pub fn level_name(level: Level) -> (name: &'static str)
    ensures
        name@ == level_named(level),
{
    match level {
        Level::ERROR => "ERROR",
        Level::WARN => "WARN",
        Level::INFO => "INFO",
        Level::DEBUG => "DEBUG",
        Level::TRACE => "TRACE",
    }
}

/// A text with spaces before it until it is so wide.
pub open spec fn padded(text: Seq<char>, width: nat) -> Seq<char> {
    if text.len() >= width {
        text
    } else {
        Seq::new((width - text.len()) as nat, |i: int| ' ') + text
    }
}

/// A text with spaces before it until it is so wide.
pub fn pad(text: &str, width: usize) -> (out: String)
    ensures
        out@ == padded(text@, width as nat),
{
    let len = text.unicode_len();
    let mut out = String::new();
    let mut i: usize = len;
    while i < width
        invariant
            len <= i,
            i <= width || i == len,
            out@ == Seq::new((i - len) as nat, |k: int| ' '),
        decreases width - i,
    {
        out.push(' ');
        i += 1;
        assert(out@ =~= Seq::new((i - len) as nat, |k: int| ' '));
    }
    out.append(text);
    assert(out@ =~= padded(text@, width as nat));
    out
}

/// A log line as it is shown: the time of day, the level, where it was said,
/// and what was said.
pub open spec fn line_shown(line: LogLine) -> Seq<char> {
    spelled(line.at@, CLOCK_FORMAT@) + "  "@ + padded(level_named(line.level), 5) + "  "@
        + line.target@ + "  "@ + line.message@
}

/// A log line as it is shown.
pub fn line_text(line: &LogLine) -> (text: String)
    ensures
        text@ == line_shown(*line),
{
    let mut text = clock_text(line.at);
    text.append("  ");
    let level = pad(level_name(line.level), 5);
    text.append(level.as_str());
    text.append("  ");
    text.append(line.target.as_str());
    text.append("  ");
    text.append(line.message.as_str());
    text
}

/// A line kept is the newest, whole and as it was said; those before it are
/// there still, but for the oldest where a thousand were held; and it counts as
/// an error or a warning exactly where it is one.
pub proof fn a_line_is_kept_and_counted(
    before: LogBuffer,
    line: LogLine,
    after: LogBuffer,
    i: int,
)
    requires
        before.is_bounded(),
        keeps(before, line, after),
    ensures
        ({
            let dropped: int = if before.lines@.len() == 1000 {
                1
            } else {
                0
            };
            &&& after.lines@.len() == before.lines@.len() + 1 - dropped
            &&& after.lines@.last() == line
            &&& 0 <= i < after.lines@.len() - 1 ==> after.lines@[i] == before.lines@[i + dropped]
        }),
        line.level == Level::ERROR ==> after.errors == before.errors + 1 && after.warnings
            == before.warnings,
        line.level == Level::WARN ==> after.warnings == before.warnings + 1 && after.errors
            == before.errors,
        line.level != Level::ERROR && line.level != Level::WARN ==> after.errors == before.errors
            && after.warnings == before.warnings,
{
}

/// An event's message stands apart from its other fields, whatever order they
/// come in: recording one leaves the other as it was, and each other field
/// stands after those before it by its name and its value.
pub proof fn a_message_stands_apart_from_its_fields(
    before: EventVisitor,
    name: Seq<char>,
    value: Seq<char>,
    after: EventVisitor,
)
    requires
        notes_field(before, name, value, after),
    ensures
        name == "message"@ ==> after.fields@ == before.fields@ && after.message@ == before.message@
            + value,
        name != "message"@ ==> after.message@ == before.message@ && before.fields@.is_prefix_of(
            after.fields@,
        ) && holds(after.fields@, " "@ + name + "="@ + value),
{
    if name != "message"@ {
        let field = " "@ + name + "="@ + value;
        assert(after.fields@ =~= before.fields@ + field + Seq::empty());
        a_part_stands_in_the_whole(before.fields@, field, Seq::empty());
        assert(before.fields@.is_prefix_of(after.fields@));
    }
}

/// A text is set to the right of so many places: as wide as that, or as itself
/// where it is wider, with nothing but spaces before it.
pub proof fn a_text_is_set_to_the_right(text: Seq<char>, width: nat, i: int)
    ensures
        text.len() <= width ==> padded(text, width).len() == width,
        text.len() >= width ==> padded(text, width) == text,
        padded(text, width).skip(padded(text, width).len() - text.len()) == text,
        0 <= i < padded(text, width).len() - text.len() ==> padded(text, width)[i] == ' ',
{
    assert(padded(text, width).skip(padded(text, width).len() - text.len()) =~= text);
}

/// A line is shown with when it was said, how loudly, where and what, the time
/// of day first and what was said last.
pub proof fn a_line_is_shown_whole(line: LogLine)
    ensures
        ({
            let shown = line_shown(line);
            &&& spelled(line.at@, "%H:%M:%SZ"@).is_prefix_of(shown)
            &&& holds(shown, level_named(line.level))
            &&& holds(shown, line.target@)
            &&& line.message@.is_suffix_of(shown)
        }),
{
    let shown = line_shown(line);
    let clock = spelled(line.at@, CLOCK_FORMAT@);
    let level = padded(level_named(line.level), 5);
    let name = level_named(line.level);
    let gap = "  "@;
    assert(clock.is_prefix_of(shown));
    assert(line.message@.is_suffix_of(shown)) by {
        let front = clock + gap + level + gap + line.target@ + gap;
        assert(shown =~= front + line.message@);
        assert(shown.subrange(shown.len() - line.message@.len(), shown.len() as int)
            =~= line.message@);
    }
    let tail = gap + line.message@;
    assert(shown =~= (clock + gap + level + gap) + line.target@ + tail);
    a_part_stands_in_the_whole(clock + gap + level + gap, line.target@, tail);
    a_text_is_set_to_the_right(name, 5, 0);
    let spaces = level.take(level.len() - name.len());
    assert(level =~= spaces + name + Seq::empty());
    a_part_stands_in_the_whole(spaces, name, Seq::empty());
    let rest = gap + line.target@ + gap + line.message@;
    assert(shown =~= (clock + gap) + level + rest);
    what_a_part_holds_the_whole_holds(clock + gap, level, rest, name);
}

/// Each level is named by its own name.
pub proof fn a_level_is_named_by_its_own_name()
    ensures
        level_named(Level::ERROR) == "ERROR"@,
        level_named(Level::WARN) == "WARN"@,
        level_named(Level::INFO) == "INFO"@,
        level_named(Level::DEBUG) == "DEBUG"@,
        level_named(Level::TRACE) == "TRACE"@,
{
}

/// A line is shown as the time of day, its level set to the right of five
/// places, where it was said and what was said, two spaces between each, and
/// nothing else.
pub proof fn a_line_is_shown_in_its_places(line: LogLine)
    ensures
        line_shown(line) == strung(
            seq![
                spelled(line.at@, "%H:%M:%SZ"@),
                "  "@,
                padded(level_named(line.level), 5),
                "  "@,
                line.target@,
                "  "@,
                line.message@,
            ],
        ),
{
    let level = padded(level_named(line.level), 5);
    let clock = spelled(line.at@, "%H:%M:%SZ"@);
    let gap = "  "@;
    let none = Seq::<Seq<char>>::empty();
    let one = none.push(clock);
    let two = one.push(gap).push(level);
    let three = two.push(gap).push(line.target@);
    a_text_is_strung_last(none, clock);
    a_text_is_strung_last(one, gap);
    a_text_is_strung_last(one.push(gap), level);
    a_text_is_strung_last(two, gap);
    a_text_is_strung_last(two.push(gap), line.target@);
    a_text_is_strung_last(three, gap);
    a_text_is_strung_last(three.push(gap), line.message@);
    assert(three.push(gap).push(line.message@) =~= seq![
        clock,
        gap,
        level,
        gap,
        line.target@,
        gap,
        line.message@,
    ]);
    assert(strung(one) =~= clock);
}

/// An event is one line: its message, and every other field after it, each with
/// a space before it.
pub proof fn an_event_is_its_message_and_its_fields(
    before: EventVisitor,
    name: Seq<char>,
    value: Seq<char>,
    after: EventVisitor,
)
    requires
        notes_field(before, name, value, after),
    ensures
        before.message@.is_prefix_of(before.said()),
        before.fields@.is_suffix_of(before.said()),
        before.said().len() == before.message@.len() + before.fields@.len(),
        name != "message"@ ==> after.said() == before.said() + " "@ + name + "="@ + value,
        name == "message"@ && before.fields@.len() == 0 ==> after.said() == before.said() + value,
{
    let said = before.said();
    assert(said.take(before.message@.len() as int) =~= before.message@);
    assert(said.skip(said.len() - before.fields@.len()) =~= before.fields@);
    if name != "message"@ {
        assert(after.said() =~= said + " "@ + name + "="@ + value);
    } else if before.fields@.len() == 0 {
        assert(after.said() =~= said + value);
    }
}

} // verus!
