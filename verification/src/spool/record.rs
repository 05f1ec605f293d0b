//! Records: how one frame is laid out in a segment.
//!
//! A record is `u32 len`, `i64 received_at` in nanoseconds, both little-endian,
//! then the frame. The length stands first: a reader that meets a short record
//! knows it is short before it trusts a byte of it.

use vstd::prelude::*;

verus! {

/// Where the receipt time starts in a head.
pub const RECEIVED: usize = 4;

/// How wide a record's head is: the frame's length, then when it was received.
pub const HEAD: usize = 12;

/// The largest frame a record may claim to hold
///
/// EDDN's mean is 3,454 bytes compressed and its largest schema is an
/// outfitting message; a megabyte is orders past either. What this is for is a
/// torn or corrupt head, which would otherwise ask for whatever integer the
/// garbage spelled.
pub const LARGEST: u32 = 1_048_576;

/// A number as so many bytes, least significant first.
pub open spec fn le_bytes(n: nat, width: nat) -> Seq<u8>
    decreases width,
{
    if width == 0 {
        Seq::empty()
    } else {
        seq![(n % 256) as u8] + le_bytes(n / 256, (width - 1) as nat)
    }
}

/// The number that bytes spell, least significant first.
pub open spec fn le_value(bytes: Seq<u8>) -> nat
    decreases bytes.len(),
{
    if bytes.len() == 0 {
        0
    } else {
        bytes[0] as nat + 256 * le_value(bytes.skip(1))
    }
}

/// 256 to a power: how many values so many bytes can spell.
pub open spec fn values_of(width: nat) -> nat
    decreases width,
{
    if width == 0 {
        1
    } else {
        256 * values_of((width - 1) as nat)
    }
}

/// An `i64` as the unsigned number its eight bytes spell.
pub open spec fn unsigned(n: int) -> nat {
    if n < 0 {
        (n + 0x1_0000_0000_0000_0000) as nat
    } else {
        n as nat
    }
}

/// The `i64` an unsigned number of eight bytes stands for.
pub open spec fn signed(n: nat) -> int {
    if n >= 0x8000_0000_0000_0000 {
        n - 0x1_0000_0000_0000_0000
    } else {
        n as int
    }
}

/// A record on the disk: a frame's bytes, and the nanoseconds it was received
/// at.
pub open spec fn record(nanos: int, bytes: Seq<u8>) -> Seq<u8> {
    le_bytes(bytes.len(), 4) + le_bytes(unsigned(nanos), 8) + bytes
}

/// What stands at the front of some bytes of a segment
pub enum Look {
    /// No whole record yet: the head is short, or the frame after it is.
    Torn,
    /// A head claiming more than a frame may hold.
    Oversized { len: nat },
    /// A whole record.
    Whole { nanos: int, bytes: Seq<u8> },
}

/// The length a head claims.
pub open spec fn claimed(tail: Seq<u8>) -> nat {
    le_value(tail.take(RECEIVED as int))
}

/// What a reader finds at the front of `tail`.
pub open spec fn look(tail: Seq<u8>) -> Look {
    if tail.len() < HEAD {
        Look::Torn
    } else if claimed(tail) > LARGEST {
        Look::Oversized { len: claimed(tail) }
    } else if tail.len() < HEAD + claimed(tail) {
        Look::Torn
    } else {
        Look::Whole {
            nanos: signed(le_value(tail.subrange(RECEIVED as int, HEAD as int))),
            bytes: tail.subrange(HEAD as int, HEAD + claimed(tail)),
        }
    }
}

/// Every whole record from the front of `tail`, in order, up to the first that
/// is torn or oversized.
pub open spec fn records(tail: Seq<u8>) -> Seq<(int, Seq<u8>)>
    decreases tail.len(),
{
    match look(tail) {
        Look::Whole { nanos, bytes } => seq![(nanos, bytes)] + records(
            tail.skip(HEAD + bytes.len()),
        ),
        _ => Seq::empty(),
    }
}

/// How many bytes the whole records at the front of `tail` take up.
pub open spec fn whole_length(tail: Seq<u8>) -> nat
    decreases tail.len(),
{
    match look(tail) {
        Look::Whole { nanos, bytes } => HEAD as nat + bytes.len() + whole_length(
            tail.skip(HEAD + bytes.len()),
        ),
        _ => 0,
    }
}

/// Whether no head from the front of some bytes on claims too much.
pub open spec fn sound(tail: Seq<u8>) -> bool
    decreases tail.len(),
{
    match look(tail) {
        Look::Whole { nanos, bytes } => sound(tail.skip(HEAD + bytes.len())),
        Look::Oversized { .. } => false,
        Look::Torn => true,
    }
}

/// How much of a segment is kept when it is opened to be written to: its whole
/// records, so that what a kill left of one more does not stand between them
/// and the next. A head that claims too much is no kill's doing, and is left
/// for a reader to report.
pub open spec fn kept_length(tail: Seq<u8>) -> nat {
    if sound(tail) {
        whole_length(tail)
    } else {
        tail.len()
    }
}

/// Records written one after another.
pub open spec fn written(frames: Seq<(int, Seq<u8>)>) -> Seq<u8>
    decreases frames.len(),
{
    if frames.len() == 0 {
        Seq::empty()
    } else {
        record(frames[0].0, frames[0].1) + written(frames.skip(1))
    }
}

/// Whether a frame is one a reader takes back: no larger than a record may
/// hold, and received at a time that eight bytes can count.
pub open spec fn readable(frame: (int, Seq<u8>)) -> bool {
    frame.1.len() <= LARGEST && i64::MIN <= frame.0 <= i64::MAX
}

proof fn lemma_le_len(n: nat, width: nat)
    ensures
        le_bytes(n, width).len() == width,
    decreases width,
{
    if width > 0 {
        lemma_le_len(n / 256, (width - 1) as nat);
    }
}

proof fn lemma_le_round_trip(n: nat, width: nat)
    requires
        n < values_of(width),
    ensures
        le_value(le_bytes(n, width)) == n,
    decreases width,
{
    if width > 0 {
        lemma_le_round_trip(n / 256, (width - 1) as nat);
        let bytes = le_bytes(n, width);
        assert(bytes.skip(1) == le_bytes(n / 256, (width - 1) as nat));
        assert(bytes[0] as nat == n % 256);
    }
}

proof fn lemma_widths()
    ensures
        values_of(4) == 0x1_0000_0000,
        values_of(8) == 0x1_0000_0000_0000_0000,
{
    reveal_with_fuel(values_of, 9);
}

/// A record, whatever is written after it, reads back as the frame it was
/// written from, and takes up its head and its frame.
pub proof fn a_record_reads_back(frame: (int, Seq<u8>), rest: Seq<u8>)
    requires
        readable(frame),
    ensures
        look(record(frame.0, frame.1) + rest) == (Look::Whole { nanos: frame.0, bytes: frame.1 }),
        record(frame.0, frame.1).len() == HEAD + frame.1.len(),
{
    let (nanos, bytes) = frame;
    let tail = record(nanos, bytes) + rest;
    lemma_widths();
    lemma_le_len(bytes.len(), 4);
    lemma_le_len(unsigned(nanos), 8);
    lemma_le_round_trip(bytes.len(), 4);
    lemma_le_round_trip(unsigned(nanos), 8);
    assert(tail.take(4) == le_bytes(bytes.len(), 4));
    assert(tail.subrange(4, 12) == le_bytes(unsigned(nanos), 8));
    assert(tail.subrange(12, 12int + bytes.len()) == bytes);
}

/// A record cut short anywhere is no record yet.
pub proof fn a_cut_record_is_torn(frame: (int, Seq<u8>), cut: int)
    requires
        readable(frame),
        0 <= cut < record(frame.0, frame.1).len(),
    ensures
        look(record(frame.0, frame.1).take(cut)) is Torn,
{
    let whole = record(frame.0, frame.1);
    a_record_reads_back(frame, Seq::empty());
    assert(whole + Seq::<u8>::empty() == whole);
    if cut >= HEAD {
        assert(whole.take(cut).take(4) == whole.take(4));
    }
}

/// What a reader finds does not depend on what stands after the record it
/// finds: more bytes leave a whole record as it was, and an oversized head
/// oversized.
pub proof fn a_look_reads_no_further(tail: Seq<u8>, more: Seq<u8>)
    requires
        !(look(tail) is Torn),
    ensures
        look(tail + more) == look(tail),
{
    let all = tail + more;
    assert(all.take(4) == tail.take(4));
    if look(tail) is Whole {
        assert(all.subrange(4, 12) == tail.subrange(4, 12));
        assert(all.subrange(12, 12int + claimed(tail)) == tail.subrange(12, 12int + claimed(tail)));
    }
}

/// A segment reads back as the frames written to it, in the order they were
/// written, and what a kill left of one more record takes none of them away.
pub proof fn a_torn_tail_loses_only_the_partial_record(
    frames: Seq<(int, Seq<u8>)>,
    torn: Seq<u8>,
)
    requires
        forall|i: int| 0 <= i < frames.len() ==> readable(#[trigger] frames[i]),
        look(torn) is Torn,
    ensures
        records(written(frames) + torn) == frames,
    decreases frames.len(),
{
    let tail = written(frames) + torn;
    if frames.len() == 0 {
        assert(tail == torn);
        assert(records(tail) == frames);
    } else {
        let rest = written(frames.skip(1)) + torn;
        assert(tail == record(frames[0].0, frames[0].1) + rest);
        a_record_reads_back(frames[0], rest);
        assert forall|i: int| 0 <= i < frames.skip(1).len() implies readable(
            #[trigger] frames.skip(1)[i],
        ) by {
            assert(frames.skip(1)[i] == frames[i + 1]);
        }
        a_torn_tail_loses_only_the_partial_record(frames.skip(1), torn);
        assert(tail.skip(HEAD + frames[0].1.len()) == rest);
        assert(records(tail) == seq![frames[0]] + frames.skip(1));
        assert(seq![frames[0]] + frames.skip(1) == frames);
    }
}

/// The whole records at the front of some bytes read alike without what stands
/// after them, and what stands after them is no whole record: torn, unless its
/// head claims too much.
pub proof fn whole_records_stand_alone(tail: Seq<u8>)
    ensures
        whole_length(tail) <= tail.len(),
        ({
            let whole = tail.take(whole_length(tail) as int);
            &&& records(whole) == records(tail)
            &&& whole_length(whole) == whole.len()
            &&& sound(whole)
        }),
        sound(tail) <==> look(tail.skip(whole_length(tail) as int)) is Torn,
        !(look(tail.skip(whole_length(tail) as int)) is Whole),
    decreases tail.len(),
{
    let whole = tail.take(whole_length(tail) as int);
    match look(tail) {
        Look::Whole { nanos, bytes } => {
            let width = HEAD + bytes.len();
            let rest = tail.skip(width);
            whole_records_stand_alone(rest);
            let front = tail.take(width);
            assert(front.take(4) == tail.take(4));
            assert(front.subrange(4, 12) == tail.subrange(4, 12));
            assert(front.subrange(12, width) == bytes);
            assert(look(front) == look(tail));
            let after = rest.take(whole_length(rest) as int);
            assert(whole == front + after);
            a_look_reads_no_further(front, after);
            assert(whole.skip(width) == after);
            assert(tail.skip(whole_length(tail) as int) == rest.skip(whole_length(rest) as int));
        },
        _ => {
            assert(whole == Seq::<u8>::empty());
            assert(tail.skip(0) == tail);
        },
    }
}

/// Bytes written after whole records are read after them.
pub proof fn whole_records_are_read_past(whole: Seq<u8>, more: Seq<u8>)
    requires
        whole_length(whole) == whole.len(),
    ensures
        records(whole + more) == records(whole) + records(more),
        whole_length(whole + more) == whole.len() + whole_length(more),
        sound(whole + more) == sound(more),
    decreases whole.len(),
{
    if whole.len() == 0 {
        assert(whole + more == more);
        assert(records(whole) + records(more) == records(more));
    } else {
        let found = look(whole);
        let width = HEAD + found->bytes.len();
        let rest = whole.skip(width);
        a_look_reads_no_further(whole, more);
        whole_records_are_read_past(rest, more);
        assert((whole + more).skip(width) == rest + more);
        assert(records(whole + more) == records(whole) + records(more));
    }
}

proof fn lemma_one_record(frame: (int, Seq<u8>))
    requires
        readable(frame),
    ensures
        ({
            let one = record(frame.0, frame.1);
            &&& records(one) == seq![frame]
            &&& whole_length(one) == one.len()
            &&& sound(one)
        }),
{
    let one = record(frame.0, frame.1);
    a_record_reads_back(frame, Seq::empty());
    assert(one + Seq::<u8>::empty() == one);
    assert(one.skip(HEAD + frame.1.len()) == Seq::<u8>::empty());
    let none = Seq::<u8>::empty();
    assert(look(none) is Torn);
    assert(records(none) == Seq::<(int, Seq<u8>)>::empty());
    assert(whole_length(none) == 0 && sound(none));
    assert(records(one) == seq![frame] + records(none));
}

/// A record written where the whole records of a segment end is read after
/// them: a killed recorder loses the record it was writing and nothing else,
/// neither those before it nor those written once it is started again.
pub proof fn a_restart_loses_only_the_partial_record(tail: Seq<u8>, frame: (int, Seq<u8>))
    requires
        sound(tail),
        readable(frame),
    ensures
        ({
            let next = tail.take(kept_length(tail) as int) + record(frame.0, frame.1);
            &&& records(next) == records(tail).push(frame)
            &&& whole_length(next) == next.len()
            &&& sound(next)
        }),
{
    let whole = tail.take(kept_length(tail) as int);
    whole_records_stand_alone(tail);
    lemma_one_record(frame);
    whole_records_are_read_past(whole, record(frame.0, frame.1));
    assert(records(tail) + seq![frame] == records(tail).push(frame));
}

/// What a kill leaves of a record adds nothing to what is read of a segment,
/// and is cut away when the segment is next opened.
pub proof fn a_kill_leaves_what_was_written(tail: Seq<u8>, frame: (int, Seq<u8>), cut: int)
    requires
        sound(tail),
        readable(frame),
        0 <= cut < record(frame.0, frame.1).len(),
    ensures
        ({
            let whole = tail.take(kept_length(tail) as int);
            let killed = whole + record(frame.0, frame.1).take(cut);
            &&& records(killed) == records(tail)
            &&& sound(killed)
            &&& killed.take(kept_length(killed) as int) == whole
        }),
{
    let whole = tail.take(kept_length(tail) as int);
    let partial = record(frame.0, frame.1).take(cut);
    whole_records_stand_alone(tail);
    a_cut_record_is_torn(frame, cut);
    whole_records_are_read_past(whole, partial);
    assert(records(whole) + records(partial) == records(whole));
    assert((whole + partial).take(whole.len() as int) == whole);
}

/// Writes a number into `out`, least significant byte first.
fn push_le(out: &mut Vec<u8>, n: u64, width: usize)
    ensures
        final(out)@ == old(out)@ + le_bytes(n as nat, width as nat),
    decreases width,
{
    if width == 0 {
        assert(out@ + Seq::<u8>::empty() == out@);
        return;
    }
    let ghost before = out@;
    out.push((n % 256) as u8);
    push_le(out, n / 256, width - 1);
    assert(out@ == before + (seq![(n % 256) as u8] + le_bytes(
        (n / 256) as nat,
        (width - 1) as nat,
    )));
}

/// Reads so many bytes of `tail` as a number, least significant first.
fn read_le(tail: &[u8], from: usize, width: usize) -> (n: u64)
    requires
        from + width <= tail@.len(),
        width <= 8,
    ensures
        n == le_value(tail@.subrange(from as int, from + width)),
        n < values_of(width as nat),
    decreases width,
{
    let ghost bytes = tail@.subrange(from as int, from + width);
    if width == 0 {
        return 0;
    }
    assert(from + width <= tail.len());
    let rest = read_le(tail, from + 1, width - 1);
    proof {
        assert(bytes.skip(1) == tail@.subrange(from + 1, from + width));
        assert(bytes[0] == tail@[from as int]);
        lemma_widths();
        lemma_values_grow((width - 1) as nat, 7);
        reveal_with_fuel(values_of, 2);
    }
    tail[from] as u64 + 256 * rest
}

proof fn lemma_values_grow(a: nat, b: nat)
    requires
        a <= b,
    ensures
        1 <= values_of(a) <= values_of(b),
    decreases b,
{
    if a < b {
        lemma_values_grow(a, (b - 1) as nat);
    } else if a > 0 {
        lemma_values_grow((a - 1) as nat, (a - 1) as nat);
    }
}

/// The record a frame is written as.
pub fn encode(nanos: i64, bytes: &Vec<u8>) -> (out: Vec<u8>)
    requires
        bytes@.len() <= u32::MAX,
    ensures
        out@ == record(nanos as int, bytes@),
{
    let mut out: Vec<u8> = Vec::new();
    push_le(&mut out, bytes.len() as u64, RECEIVED);
    let stamp: u64 = if nanos < 0 {
        (nanos as i128 + 0x1_0000_0000_0000_0000) as u64
    } else {
        nanos as u64
    };
    push_le(&mut out, stamp, HEAD - RECEIVED);
    let mut i: usize = 0;
    let ghost head = out@;
    while i < bytes.len()
        invariant
            i <= bytes.len(),
            out@ == head + bytes@.take(i as int),
        decreases bytes.len() - i,
    {
        out.push(bytes[i]);
        i += 1;
        assert(bytes@.take(i as int) == bytes@.take(i - 1).push(bytes@[i - 1]));
    }
    assert(bytes@.take(i as int) == bytes@);
    assert(out@ == record(nanos as int, bytes@));
    out
}

/// How many bytes the whole records at the front of `tail` take up.
pub fn whole(tail: &[u8]) -> (len: usize)
    ensures
        len == whole_length(tail@),
{
    let mut at: usize = 0;
    assert(tail@.skip(0) == tail@);
    proof {
        lemma_widths();
    }
    while tail.len() - at >= HEAD
        invariant
            at <= tail.len(),
            values_of(4) == 0x1_0000_0000,
            whole_length(tail@) == at + whole_length(tail@.skip(at as int)),
        decreases tail.len() - at,
    {
        let ghost rest = tail@.skip(at as int);
        let len: u64 = read_le(tail, at, RECEIVED);
        assert(tail@.subrange(at as int, at + 4) == rest.take(4));
        if len > LARGEST as u64 {
            return at;
        }
        let len: usize = len as usize;
        if tail.len() - at - HEAD < len {
            return at;
        }
        let width: usize = HEAD + len;
        assert(rest.skip(width as int) == tail@.skip(at + width));
        at += width;
    }
    at
}

/// How much of a segment is kept when it is opened to be written to.
pub fn kept(tail: &[u8]) -> (len: usize)
    ensures
        len == kept_length(tail@),
        len <= tail@.len(),
{
    let at = whole(tail);
    proof {
        lemma_widths();
        whole_records_stand_alone(tail@);
    }
    if tail.len() - at >= HEAD {
        let len: u64 = read_le(tail, at, RECEIVED);
        assert(tail@.subrange(at as int, at + 4) == tail@.skip(at as int).take(4));
        if len > LARGEST as u64 {
            return tail.len();
        }
    }
    at
}

/// What a reader found, as [`decode`] hands it over
#[derive(Debug)]
pub enum Found {
    /// No whole record yet.
    Torn,
    /// A head claiming more than a frame may hold.
    Oversized(u32),
    /// A whole record: the nanoseconds it was received at, and the frame.
    Whole(i64, Vec<u8>),
}

impl Found {
    /// What was found, as [`look`] says it.
    pub open spec fn as_look(self) -> Look {
        match self {
            Found::Torn => Look::Torn,
            Found::Oversized(len) => Look::Oversized { len: len as nat },
            Found::Whole(nanos, bytes) => Look::Whole { nanos: nanos as int, bytes: bytes@ },
        }
    }
}

/// How many bytes of a segment hold the record at the front of `tail`.
pub open spec fn extent_of(tail: Seq<u8>) -> int {
    if tail.len() >= HEAD && claimed(tail) <= LARGEST {
        HEAD + claimed(tail)
    } else {
        HEAD as int
    }
}

/// How many bytes of a segment hold the record at the front of `tail`: its
/// head, where that is all that can be told yet, and the frame it claims.
pub fn extent(tail: &[u8]) -> (wanted: usize)
    ensures
        wanted == extent_of(tail@),
{
    if tail.len() < HEAD {
        return HEAD;
    }
    proof {
        lemma_widths();
    }
    let len: u64 = read_le(tail, 0, RECEIVED);
    assert(tail@.subrange(0, 4) == tail@.take(4));
    if len > LARGEST as u64 {
        HEAD
    } else {
        HEAD + len as usize
    }
}

/// Reads the record at the front of `tail`.
pub fn decode(tail: &[u8]) -> (found: Found)
    ensures
        found.as_look() == look(tail@),
{
    if tail.len() < HEAD {
        return Found::Torn;
    }
    proof {
        lemma_widths();
    }
    let len: u64 = read_le(tail, 0, RECEIVED);
    assert(tail@.subrange(0, 4) == tail@.take(4));
    if len > LARGEST as u64 {
        return Found::Oversized(len as u32);
    }
    let len: usize = len as usize;
    if tail.len() - HEAD < len {
        return Found::Torn;
    }
    let stamp: u64 = read_le(tail, RECEIVED, HEAD - RECEIVED);
    let nanos: i64 = if stamp >= 0x8000_0000_0000_0000 {
        (stamp as i128 - 0x1_0000_0000_0000_0000) as i64
    } else {
        stamp as i64
    };
    let mut bytes: Vec<u8> = Vec::new();
    let mut i: usize = 0;
    while i < len
        invariant
            i <= len,
            HEAD + len <= tail.len(),
            bytes@ == tail@.subrange(HEAD as int, HEAD + i),
        decreases len - i,
    {
        bytes.push(tail[HEAD + i]);
        i += 1;
        assert(bytes@ == tail@.subrange(HEAD as int, HEAD + i));
    }
    Found::Whole(nanos, bytes)
}

/// What four bytes spell, least significant first.
pub open spec fn four_spell(bytes: Seq<u8>, from: int) -> int {
    bytes[from] + 0x100 * bytes[from + 1] + 0x1_0000 * bytes[from + 2] + 0x100_0000 * bytes[from
        + 3]
}

proof fn lemma_four(bytes: Seq<u8>)
    requires
        bytes.len() == 4,
    ensures
        le_value(bytes) == four_spell(bytes, 0),
{
    reveal_with_fuel(le_value, 5);
    assert(bytes.skip(1).skip(1) =~= bytes.skip(2));
    assert(bytes.skip(2).skip(1) =~= bytes.skip(3));
    assert(bytes.skip(3).skip(1) =~= Seq::empty());
}

proof fn lemma_eight(bytes: Seq<u8>)
    requires
        bytes.len() == 8,
    ensures
        le_value(bytes) == four_spell(bytes, 0) + 0x1_0000_0000 * four_spell(bytes, 4),
{
    let back = bytes.skip(4);
    lemma_four(back);
    reveal_with_fuel(le_value, 5);
    assert(bytes.skip(1).skip(1) =~= bytes.skip(2));
    assert(bytes.skip(2).skip(1) =~= bytes.skip(3));
    assert(bytes.skip(3).skip(1) =~= back);
}

/// A record is its frame's length in four bytes, the nanoseconds it was received
/// at in eight, both least significant first and the time in two's complement,
/// and then the frame.
pub proof fn a_record_is_a_length_a_time_and_a_frame(frame: (int, Seq<u8>))
    requires
        readable(frame),
    ensures
        ({
            let whole = record(frame.0, frame.1);
            let time = four_spell(whole, 4) + 0x1_0000_0000 * four_spell(whole, 8);
            &&& whole.len() == 12 + frame.1.len()
            &&& four_spell(whole, 0) == frame.1.len()
            &&& time == if frame.0 >= 0 {
                frame.0
            } else {
                frame.0 + 0x1_0000_0000_0000_0000
            }
            &&& whole.skip(12) == frame.1
        }),
{
    let (nanos, bytes) = frame;
    let whole = record(nanos, bytes);
    lemma_widths();
    lemma_le_len(bytes.len(), 4);
    lemma_le_len(unsigned(nanos), 8);
    lemma_le_round_trip(bytes.len(), 4);
    lemma_le_round_trip(unsigned(nanos), 8);
    lemma_four(le_bytes(bytes.len(), 4));
    lemma_eight(le_bytes(unsigned(nanos), 8));
    assert(whole.take(4) =~= le_bytes(bytes.len(), 4));
    assert(whole.subrange(4, 12) =~= le_bytes(unsigned(nanos), 8));
    assert(whole.skip(12) =~= bytes);
    assert(four_spell(whole, 0) == four_spell(whole.take(4), 0));
    assert(four_spell(whole, 4) == four_spell(whole.subrange(4, 12), 0));
    assert(four_spell(whole, 8) == four_spell(whole.subrange(4, 12), 4));
}

/// A head is torn where it is not all there, and refused where the length it
/// spells is more than a megabyte; any other waits for as many bytes as it
/// spells and is whole once they are there.
pub proof fn a_head_is_answered_by_the_length_it_spells(tail: Seq<u8>)
    ensures
        tail.len() < 12 ==> look(tail) is Torn,
        tail.len() >= 12 ==> {
            let len = four_spell(tail, 0);
            &&& look(tail) is Oversized <==> len > 1_048_576
            &&& len > 1_048_576 ==> look(tail)->len == len
            &&& look(tail) is Whole <==> len <= 1_048_576 && tail.len() >= 12 + len
            &&& look(tail) is Whole ==> look(tail)->bytes == tail.subrange(12, 12 + len)
        },
{
    if tail.len() >= 12 {
        lemma_four(tail.take(4));
        assert(four_spell(tail, 0) == four_spell(tail.take(4), 0));
    }
}

/// As many bytes as a record is said to take up are enough to tell what it is
/// by, and fewer are not.
pub proof fn a_records_extent_tells_what_it_is(tail: Seq<u8>)
    ensures
        tail.len() < extent_of(tail) <==> look(tail) is Torn,
        tail.len() >= extent_of(tail) ==> look(tail.take(extent_of(tail))) == look(tail)
            && forall|fewer: int|
            0 <= fewer < extent_of(tail) ==> look(#[trigger] tail.take(fewer)) is Torn,
{
    let wanted = extent_of(tail);
    if tail.len() >= wanted {
        let enough = tail.take(wanted);
        assert(enough.take(4) =~= tail.take(4));
        assert(enough.subrange(4, 12) =~= tail.subrange(4, 12));
        if claimed(tail) <= LARGEST {
            assert(enough.subrange(12, wanted) =~= tail.subrange(12, wanted));
        }
        assert forall|fewer: int| 0 <= fewer < wanted implies look(
            #[trigger] tail.take(fewer),
        ) is Torn by {
            if fewer >= 12 {
                assert(tail.take(fewer).take(4) =~= tail.take(4));
            }
        }
    }
}

} // verus!
