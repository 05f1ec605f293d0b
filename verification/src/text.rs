//! Text: the few readings and renderings of strings the rest is built from.
//!
//! A string is modelled as the sequence of its characters. Positions are
//! counted in characters throughout, except where a caller was given a byte
//! offset and says so.

use vstd::prelude::*;
use vstd::string::{StrSliceExecFns, StringExecFns, StringSliceAdditionalSpecFns};
use vstd::utf8::{
    encode_utf8, encode_utf8_valid_utf8, is_char_boundary,
    is_char_boundary_iff_not_is_continuation_byte, is_char_boundary_start_end_of_seq,
    length_of_first_scalar, pop_first_scalar, valid_utf8, valid_utf8_split,
};

verus! {

/// [`String::push`] appends the one character it is given.
pub assume_specification[ String::push ](text: &mut String, c: char)
    ensures
        final(text)@ == old(text)@.push(c),
;

/// Whether `needle` stands in `text` at `at`.
pub open spec fn stands_at(text: Seq<char>, needle: Seq<char>, at: int) -> bool {
    0 <= at && at + needle.len() <= text.len() && text.subrange(at, at + needle.len()) == needle
}

/// Whether `needle` stands anywhere in `text`.
pub open spec fn holds(text: Seq<char>, needle: Seq<char>) -> bool {
    exists|at: int| stands_at(text, needle, at)
}

/// Whether `at` is the first place `needle` stands in `text`.
pub open spec fn first_at(text: Seq<char>, needle: Seq<char>, at: int) -> bool {
    stands_at(text, needle, at) && forall|k: int| 0 <= k < at ==> !stands_at(text, needle, k)
}

/// A part stands in the whole it is a part of.
pub proof fn a_part_stands_in_the_whole(front: Seq<char>, part: Seq<char>, back: Seq<char>)
    ensures
        holds(front + part + back, part),
{
    let whole = front + part + back;
    let from = front.len() as int;
    assert(whole.subrange(from, from + part.len()) == part);
    assert(stands_at(whole, part, front.len() as int));
}

/// What stands in a part stands in the whole.
pub proof fn what_a_part_holds_the_whole_holds(
    front: Seq<char>,
    part: Seq<char>,
    back: Seq<char>,
    needle: Seq<char>,
)
    requires
        holds(part, needle),
    ensures
        holds(front + part + back, needle),
{
    let at = choose|at: int| stands_at(part, needle, at);
    let whole = front + part + back;
    let from = front.len() as int + at;
    assert(whole.subrange(from, from + needle.len()) == part.subrange(at, at + needle.len()));
    assert(stands_at(whole, needle, from));
}

/// How many characters stand before the first `stop`, or in all of `text`
/// where there is none.
pub open spec fn run_before(text: Seq<char>, stop: char) -> nat
    decreases text.len(),
{
    if text.len() == 0 || text[0] == stop {
        0
    } else {
        1 + run_before(text.skip(1), stop)
    }
}

/// What stands before the first `stop`, or all of `text` where there is none.
pub open spec fn before(text: Seq<char>, stop: char) -> Seq<char> {
    text.take(run_before(text, stop) as int)
}

/// What stands after the first `stop`, where there is one.
pub open spec fn after(text: Seq<char>, stop: char) -> Option<Seq<char>> {
    let at = run_before(text, stop);
    if at < text.len() {
        Some(text.skip(at as int + 1))
    } else {
        None
    }
}

/// Whether one text sorts before another, character by character.
pub open spec fn sorts_before(a: Seq<char>, b: Seq<char>) -> bool
    decreases a.len(),
{
    if b.len() == 0 {
        false
    } else if a.len() == 0 {
        true
    } else if a[0] != b[0] {
        a[0] < b[0]
    } else {
        sorts_before(a.skip(1), b.skip(1))
    }
}

/// The character a digit is written as.
pub open spec fn digit(d: nat) -> char {
    (48 + d) as char
}

/// Whether a character is a decimal digit.
pub open spec fn is_digit(c: char) -> bool {
    '0' <= c && c <= '9'
}

/// A number in decimal, as it is displayed.
pub open spec fn decimal(n: nat) -> Seq<char>
    decreases n,
{
    if n < 10 {
        seq![digit(n)]
    } else {
        decimal(n / 10).push(digit(n % 10))
    }
}

/// Whether every character is a decimal digit.
pub open spec fn all_digits(text: Seq<char>) -> bool {
    forall|i: int| 0 <= i < text.len() ==> is_digit(#[trigger] text[i])
}

/// What a run of digits counts to.
pub open spec fn digits_value(text: Seq<char>) -> nat
    decreases text.len(),
{
    if text.len() == 0 {
        0
    } else {
        digits_value(text.drop_last()) * 10 + (text.last() as nat - 48) as nat
    }
}

/// The digits of a number as it may be written: with or without a plus sign.
pub open spec fn unsigned_digits(text: Seq<char>) -> Seq<char> {
    if text.len() > 0 && text[0] == '+' {
        text.skip(1)
    } else {
        text
    }
}

/// The number `text` spells, where it spells one a `u64` can hold.
pub open spec fn read_number(text: Seq<char>) -> Option<u64> {
    let digits = unsigned_digits(text);
    if digits.len() > 0 && all_digits(digits) && digits_value(digits) <= u64::MAX {
        Some(digits_value(digits) as u64)
    } else {
        None
    }
}

/// Whether a character is white space, by the Unicode property of that name.
pub open spec fn is_space(c: char) -> bool {
    let code = c as u32;
    ||| 0x9 <= code <= 0xd
    ||| code == 0x20
    ||| code == 0x85
    ||| code == 0xa0
    ||| code == 0x1680
    ||| 0x2000 <= code <= 0x200a
    ||| code == 0x2028
    ||| code == 0x2029
    ||| code == 0x202f
    ||| code == 0x205f
    ||| code == 0x3000
}

/// An ASCII capital as its small letter, and every other character as it is.
pub open spec fn small(c: char) -> char {
    if 'A' <= c && c <= 'Z' {
        (c as u32 + 32) as char
    } else {
        c
    }
}

/// A text with its ASCII capitals made small.
pub open spec fn ascii_small(text: Seq<char>) -> Seq<char> {
    Seq::new(text.len(), |i: int| small(text[i]))
}

/// The characters of a string, in order.
pub fn chars_of(text: &str) -> (chars: Vec<char>)
    ensures
        chars@ == text@,
{
    let mut chars: Vec<char> = Vec::new();
    for c in it: text.chars()
        invariant
            chars@ == text@.take(it.index()),
            it.seq() == text@,
    {
        chars.push(c);
        assert(text@.take(it.index() + 1) == text@.take(it.index()).push(c));
    }
    assert(text@.take(text@.len() as int) == text@);
    chars
}

/// Whether two strings spell the same text.
pub fn same(a: &str, b: &str) -> (same: bool)
    ensures
        same == (a@ == b@),
{
    let left = chars_of(a);
    let right = chars_of(b);
    if left.len() != right.len() {
        return false;
    }
    let mut i: usize = 0;
    while i < left.len()
        invariant
            i <= left.len(),
            left@ == a@,
            right@ == b@,
            left.len() == right.len(),
            forall|k: int| 0 <= k < i ==> left@[k] == right@[k],
        decreases left.len() - i,
    {
        if left[i] != right[i] {
            return false;
        }
        i += 1;
    }
    assert(left@ == right@);
    true
}

/// Whether one string sorts before another.
pub fn less(a: &str, b: &str) -> (less: bool)
    ensures
        less == sorts_before(a@, b@),
{
    let left = chars_of(a);
    let right = chars_of(b);
    let mut i: usize = 0;
    proof {
        assert(a@.skip(0) == a@);
        assert(b@.skip(0) == b@);
    }
    while i < left.len() && i < right.len()
        invariant
            i <= left.len(),
            i <= right.len(),
            left@ == a@,
            right@ == b@,
            sorts_before(a@, b@) == sorts_before(a@.skip(i as int), b@.skip(i as int)),
        decreases left.len() - i,
    {
        if left[i] != right[i] {
            return left[i] < right[i];
        }
        assert(a@.skip(i as int).skip(1) == a@.skip(i + 1));
        assert(b@.skip(i as int).skip(1) == b@.skip(i + 1));
        i += 1;
    }
    i == left.len() && i < right.len()
}

/// Whether `needle` stands in `chars` at `at`.
fn matches_at(chars: &Vec<char>, needle: &Vec<char>, at: usize) -> (found: bool)
    ensures
        found == stands_at(chars@, needle@, at as int),
{
    if at > chars.len() || chars.len() - at < needle.len() {
        return false;
    }
    let mut i: usize = 0;
    while i < needle.len()
        invariant
            i <= needle.len(),
            at + needle.len() <= chars.len(),
            forall|k: int| 0 <= k < i ==> chars@[at + k] == needle@[k],
        decreases needle.len() - i,
    {
        if chars[at + i] != needle[i] {
            assert(chars@.subrange(at as int, at + needle@.len())[i as int] != needle@[i as int]);
            return false;
        }
        i += 1;
    }
    assert(chars@.subrange(at as int, at + needle@.len()) == needle@);
    true
}

/// Where `needle` first stands in `text`, counted in characters.
pub fn find(text: &str, needle: &str) -> (found: Option<usize>)
    ensures
        match found {
            Some(at) => first_at(text@, needle@, at as int),
            None => !holds(text@, needle@),
        },
{
    let chars = chars_of(text);
    let sought = chars_of(needle);
    if sought.len() > chars.len() {
        return None;
    }
    let last: usize = chars.len() - sought.len();
    let mut at: usize = 0;
    while at < last
        invariant
            at <= last,
            last + sought.len() == chars.len(),
            chars@ == text@,
            sought@ == needle@,
            forall|k: int| 0 <= k < at ==> !stands_at(text@, needle@, k),
        decreases last - at,
    {
        if matches_at(&chars, &sought, at) {
            return Some(at);
        }
        at += 1;
    }
    if matches_at(&chars, &sought, at) {
        return Some(at);
    }
    None
}

/// Whether `needle` stands anywhere in `text`.
pub fn contains(text: &str, needle: &str) -> (found: bool)
    ensures
        found == holds(text@, needle@),
{
    match find(text, needle) {
        Some(_) => true,
        None => false,
    }
}

/// How many characters stand before the first `stop`.
pub fn run_length(text: &str, stop: char) -> (run: usize)
    ensures
        run == run_before(text@, stop),
        run <= text@.len(),
{
    let chars = chars_of(text);
    let mut i: usize = 0;
    assert(chars@.skip(0) == chars@);
    while i < chars.len()
        invariant
            i <= chars.len(),
            chars@ == text@,
            run_before(chars@, stop) == i + run_before(chars@.skip(i as int), stop),
        decreases chars.len() - i,
    {
        if chars[i] == stop {
            return i;
        }
        assert(chars@.skip(i as int).skip(1) == chars@.skip(i + 1));
        i += 1;
    }
    i
}

/// A number in decimal.
pub fn decimal_text(n: u128) -> (text: String)
    ensures
        text@ == decimal(n as nat),
    decreases n,
{
    if n < 10 {
        let mut text = String::new();
        text.push(digit_char(n as u8));
        assert(text@ == seq![digit(n as nat)]);
        text
    } else {
        let mut text = decimal_text(n / 10);
        text.push(digit_char((n % 10) as u8));
        text
    }
}

/// A digit as the character it is written as.
fn digit_char(d: u8) -> (c: char)
    requires
        d < 10,
    ensures
        c == digit(d as nat),
{
    (48 + d) as char
}

proof fn lemma_prefix_value(text: Seq<char>, i: int)
    requires
        0 <= i <= text.len(),
        all_digits(text),
    ensures
        digits_value(text.take(i)) <= digits_value(text),
    decreases text.len() - i,
{
    if i == text.len() {
        assert(text.take(i) == text);
    } else {
        lemma_prefix_value(text, i + 1);
        assert(text.take(i + 1).drop_last() == text.take(i));
    }
}

/// Reads a `u64` as [`str::parse`] does: digits, with or without a plus sign.
pub fn parse_number(text: &str) -> (number: Option<u64>)
    ensures
        number == read_number(text@),
{
    let chars = chars_of(text);
    let start: usize = if chars.len() > 0 && chars[0] == '+' { 1 } else { 0 };
    let ghost digits = unsigned_digits(text@);
    assert(digits == chars@.skip(start as int));
    if start == chars.len() {
        return None;
    }
    let mut value: u64 = 0;
    let mut i: usize = start;
    assert(digits.take(0) == Seq::<char>::empty());
    while i < chars.len()
        invariant
            start <= i <= chars.len(),
            digits == chars@.skip(start as int),
            digits == unsigned_digits(text@),
            digits.len() > 0,
            forall|k: int| start <= k < i ==> is_digit(#[trigger] chars@[k]),
            value == digits_value(digits.take(i - start)),
        decreases chars.len() - i,
    {
        let c = chars[i];
        assert(digits[i - start] == c);
        if c < '0' || c > '9' {
            return None;
        }
        let d: u64 = (c as u32 - 48) as u64;
        assert(digits.take(i - start + 1).drop_last() == digits.take(i - start));
        assert(digits_value(digits.take(i - start + 1)) == value * 10 + d);
        let scaled = value.checked_mul(10);
        let sum: Option<u64> = match scaled {
            Some(scaled) => scaled.checked_add(d),
            None => None,
        };
        match sum {
            Some(sum) => {
                value = sum;
            },
            None => {
                proof {
                    if all_digits(digits) {
                        lemma_prefix_value(digits, i - start + 1);
                    }
                }
                return None;
            },
        }
        i += 1;
    }
    assert(digits.take(digits.len() as int) == digits);
    assert forall|k: int| 0 <= k < digits.len() implies is_digit(#[trigger] digits[k]) by {
        assert(is_digit(chars@[k + start]));
    }
    Some(value)
}

/// Whether every character is a decimal digit.
pub fn is_all_digits(text: &str) -> (digits: bool)
    ensures
        digits == all_digits(text@),
{
    let len = text.unicode_len();
    let mut i: usize = 0;
    while i < len
        invariant
            i <= len == text@.len(),
            forall|k: int| 0 <= k < i ==> is_digit(#[trigger] text@[k]),
        decreases len - i,
    {
        let c = text.get_char(i);
        if c < '0' || c > '9' {
            assert(!is_digit(text@[i as int]));
            return false;
        }
        i += 1;
    }
    true
}

/// Whether a character is white space.
pub fn is_white(c: char) -> (white: bool)
    ensures
        white == is_space(c),
{
    let code = c as u32;
    (0x9 <= code && code <= 0xd) || code == 0x20 || code == 0x85 || code == 0xa0 || code == 0x1680
        || (0x2000 <= code && code <= 0x200a) || code == 0x2028 || code == 0x2029 || code == 0x202f
        || code == 0x205f || code == 0x3000
}

/// A copy with its ASCII capitals made small.
pub fn to_ascii_small(text: &str) -> (lower: String)
    ensures
        lower@ == ascii_small(text@),
{
    let chars = chars_of(text);
    let mut lower = String::new();
    let mut i: usize = 0;
    while i < chars.len()
        invariant
            i <= chars.len(),
            chars@ == text@,
            lower@ == ascii_small(text@).take(i as int),
        decreases chars.len() - i,
    {
        let c = chars[i];
        if 'A' <= c && c <= 'Z' {
            lower.push((c as u8 + 32) as char);
        } else {
            lower.push(c);
        }
        i += 1;
        assert(ascii_small(text@).take(i as int) == ascii_small(text@).take(i - 1).push(
            small(text@[i - 1]),
        ));
    }
    assert(ascii_small(text@).take(i as int) == ascii_small(text@));
    lower
}

/// What stands before `suffix` at the end of `text`, where it ends in it.
pub open spec fn stripped(text: Seq<char>, suffix: Seq<char>) -> Option<Seq<char>> {
    if stands_at(text, suffix, text.len() - suffix.len()) {
        Some(text.take(text.len() - suffix.len()))
    } else {
        None
    }
}

/// Takes `suffix` off the end of `text`, where it ends in it.
pub fn strip_suffix(text: &str, suffix: &str) -> (rest: Option<String>)
    ensures
        match rest {
            Some(rest) => stripped(text@, suffix@) == Some(rest@),
            None => stripped(text@, suffix@) is None,
        },
{
    let chars = chars_of(text);
    let ending = chars_of(suffix);
    if ending.len() > chars.len() {
        return None;
    }
    let at: usize = chars.len() - ending.len();
    if matches_at(&chars, &ending, at) {
        Some(text.substring_char(0, at).to_owned())
    } else {
        None
    }
}

/// The texts of a run of strings.
pub open spec fn texts(strings: Seq<String>) -> Seq<Seq<char>> {
    Seq::new(strings.len(), |i: int| strings[i]@)
}

/// Whether texts stand in order, none sorting before one that it follows.
pub open spec fn in_order(texts: Seq<Seq<char>>) -> bool {
    forall|i: int, j: int|
        0 <= i < j < texts.len() ==> !sorts_before(#[trigger] texts[j], #[trigger] texts[i])
}

/// Sorting before is transitive.
pub proof fn sorting_is_transitive(a: Seq<char>, b: Seq<char>, c: Seq<char>)
    requires
        sorts_before(a, b),
        sorts_before(b, c),
    ensures
        sorts_before(a, c),
    decreases a.len(),
{
    if a.len() > 0 && a[0] == b[0] && b[0] == c[0] {
        sorting_is_transitive(a.skip(1), b.skip(1), c.skip(1));
    }
}

/// Of two texts, at most one sorts before the other, and where neither does
/// they are the same.
pub proof fn sorting_is_total(a: Seq<char>, b: Seq<char>)
    ensures
        !(sorts_before(a, b) && sorts_before(b, a)),
        !sorts_before(a, b) && !sorts_before(b, a) ==> a == b,
    decreases a.len(),
{
    if a.len() > 0 && b.len() > 0 && a[0] == b[0] {
        sorting_is_total(a.skip(1), b.skip(1));
        if a.skip(1) == b.skip(1) {
            assert(a == seq![a[0]] + a.skip(1));
            assert(b == seq![b[0]] + b.skip(1));
        }
    } else if a.len() == 0 && b.len() == 0 {
        assert(a == b);
    }
}

/// Whether one of `texts` is `text`.
pub fn has_text(strings: &Vec<String>, text: &str) -> (held: bool)
    ensures
        held == texts(strings@).contains(text@),
{
    let mut i: usize = 0;
    while i < strings.len()
        invariant
            i <= strings.len(),
            forall|k: int| 0 <= k < i ==> strings@[k]@ != text@,
        decreases strings.len() - i,
    {
        if same(strings[i].as_str(), text) {
            assert(texts(strings@)[i as int] == text@);
            return true;
        }
        i += 1;
    }
    assert(!texts(strings@).contains(text@)) by {
        if texts(strings@).contains(text@) {
            let k = choose|k: int| 0 <= k < texts(strings@).len() && texts(strings@)[k] == text@;
            assert(strings@[k]@ == text@);
        }
    }
    false
}

/// Where a text goes among texts in order: after all that it does not sort
/// before.
fn place_for(strings: &Vec<String>, text: &str) -> (at: usize)
    ensures
        at <= strings@.len(),
        forall|k: int| 0 <= k < at ==> !sorts_before(text@, #[trigger] strings@[k]@),
        at < strings@.len() ==> sorts_before(text@, strings@[at as int]@),
{
    let mut at: usize = 0;
    while at < strings.len()
        invariant
            at <= strings.len(),
            forall|k: int| 0 <= k < at ==> !sorts_before(text@, #[trigger] strings@[k]@),
        decreases strings.len() - at,
    {
        if less(text, strings[at].as_str()) {
            return at;
        }
        at += 1;
    }
    at
}

proof fn lemma_insert_multiset<A>(s: Seq<A>, at: int, a: A)
    requires
        0 <= at <= s.len(),
    ensures
        s.insert(at, a).to_multiset() == s.to_multiset().insert(a),
{
    broadcast use vstd::seq_lib::group_to_multiset_ensures;

    let bigger = s.insert(at, a);
    assert(bigger.remove(at) == s);
    assert(bigger[at] == a);
    assert(bigger.contains(a));
    assert(bigger.to_multiset().remove(a).insert(a) == bigger.to_multiset());
}

/// Puts a text in its place among texts in order.
pub fn insert_in_order(strings: &mut Vec<String>, text: String)
    requires
        in_order(texts(old(strings)@)),
    ensures
        in_order(texts(final(strings)@)),
        texts(final(strings)@).to_multiset() == texts(old(strings)@).to_multiset().insert(text@),
{
    let ghost before = texts(strings@);
    let ghost added = text@;
    let at = place_for(strings, text.as_str());
    proof {
        assert forall|k: int| 0 <= k < at implies !sorts_before(added, #[trigger] before[k]) by {
            assert(before[k] == strings@[k]@);
        }
        assert(at < before.len() ==> sorts_before(added, before[at as int]));
    }
    strings.insert(at, text);
    proof {
        let after = texts(strings@);
        assert(after == before.insert(at as int, added));
        lemma_insert_multiset(before, at as int, added);
        assert forall|i: int, j: int| 0 <= i < j < after.len() implies !sorts_before(
            #[trigger] after[j],
            #[trigger] after[i],
        ) by {
            if i == at {
                assert(after[j] == before[j - 1]);
                if sorts_before(after[j], added) {
                    sorting_is_transitive(after[j], added, before[at as int]);
                    if j - 1 == at {
                        sorting_is_total(before[at as int], before[at as int]);
                    }
                }
            } else if j == at {
                assert(after[i] == before[i]);
            } else {
                assert(after[i] == before[if i < at { i } else { i - 1 }]);
                assert(after[j] == before[if j < at { j } else { j - 1 }]);
            }
        }
    }
}

/// The first character boundary from `from` on, looking no further than `to`.
pub open spec fn boundary_from(bytes: Seq<u8>, from: int, to: int) -> int
    decreases to - from,
{
    if from >= to || is_char_boundary(bytes, from) {
        from
    } else {
        boundary_from(bytes, from + 1, to)
    }
}

/// A character is four bytes at most, so a boundary is never further back.
proof fn lemma_boundary_within_four(bytes: Seq<u8>, at: int) -> (found: int)
    requires
        valid_utf8(bytes),
        0 <= at <= bytes.len(),
    ensures
        0 <= found <= at,
        at - found < 4,
        is_char_boundary(bytes, found),
    decreases bytes.len(),
{
    if bytes.len() == 0 {
        is_char_boundary_start_end_of_seq(bytes);
        0
    } else if at < length_of_first_scalar(bytes) {
        is_char_boundary_start_end_of_seq(bytes);
        0
    } else {
        let first = length_of_first_scalar(bytes);
        let found = lemma_boundary_within_four(pop_first_scalar(bytes), at - first);
        found + first
    }
}

proof fn lemma_boundary_from(bytes: Seq<u8>, from: int, to: int, known: int)
    requires
        valid_utf8(bytes),
        0 <= from <= known <= to <= bytes.len(),
        is_char_boundary(bytes, known),
    ensures
        from <= boundary_from(bytes, from, to) <= known,
        is_char_boundary(bytes, boundary_from(bytes, from, to)),
    decreases to - from,
{
    if from < to && !is_char_boundary(bytes, from) {
        lemma_boundary_from(bytes, from + 1, to, known);
    }
}

/// The last character boundary at or before a place, or the start.
pub open spec fn boundary_before(bytes: Seq<u8>, at: int) -> int
    decreases at,
{
    if at <= 0 || is_char_boundary(bytes, at) {
        at
    } else {
        boundary_before(bytes, at - 1)
    }
}

proof fn lemma_boundary_before(bytes: Seq<u8>, at: int, known: int)
    requires
        valid_utf8(bytes),
        0 <= known <= at <= bytes.len(),
        is_char_boundary(bytes, known),
    ensures
        known <= boundary_before(bytes, at) <= at,
        is_char_boundary(bytes, boundary_before(bytes, at)),
    decreases at,
{
    is_char_boundary_start_end_of_seq(bytes);
    if at > 0 && !is_char_boundary(bytes, at) {
        lemma_boundary_before(bytes, at - 1, known);
    }
}

/// From anywhere in a text a boundary is no more than three bytes back.
pub proof fn the_last_boundary_is_close(bytes: Seq<u8>, at: int)
    requires
        valid_utf8(bytes),
        0 <= at <= bytes.len(),
    ensures
        0 <= boundary_before(bytes, at) <= at,
        at - boundary_before(bytes, at) <= 3,
        is_char_boundary(bytes, boundary_before(bytes, at)),
{
    let known = lemma_boundary_within_four(bytes, at);
    lemma_boundary_before(bytes, at, known);
}

/// The end of a text is a boundary, so looking on to it always finds one.
pub proof fn the_end_is_a_boundary(bytes: Seq<u8>, from: int)
    requires
        valid_utf8(bytes),
        0 <= from <= bytes.len(),
    ensures
        from <= boundary_from(bytes, from, bytes.len() as int) <= bytes.len(),
        is_char_boundary(bytes, boundary_from(bytes, from, bytes.len() as int)),
{
    is_char_boundary_start_end_of_seq(bytes);
    lemma_boundary_from(bytes, from, bytes.len() as int, bytes.len() as int);
}

/// The first character boundary from `from` on, looking no further than `to`.
pub fn find_boundary(text: &str, from: usize, to: usize) -> (at: usize)
    requires
        from <= to <= text.spec_bytes().len(),
    ensures
        at == boundary_from(text.spec_bytes(), from as int, to as int),
{
    let mut at: usize = from;
    while at < to && !text.is_char_boundary(at)
        invariant
            from <= at <= to,
            boundary_from(text.spec_bytes(), from as int, to as int) == boundary_from(
                text.spec_bytes(),
                at as int,
                to as int,
            ),
        decreases to - at,
    {
        at += 1;
    }
    at
}

/// The last character boundary at or before a place, or the start.
pub fn find_boundary_before(text: &str, from: usize) -> (at: usize)
    requires
        from <= text.spec_bytes().len(),
    ensures
        at == boundary_before(text.spec_bytes(), from as int),
{
    let mut at: usize = from;
    while at > 0 && !text.is_char_boundary(at)
        invariant
            at <= from <= text.spec_bytes().len(),
            boundary_before(text.spec_bytes(), from as int) == boundary_before(
                text.spec_bytes(),
                at as int,
            ),
        decreases at,
    {
        at -= 1;
    }
    at
}

/// The part of a text between two character boundaries.
pub fn slice(text: &str, from: usize, to: usize) -> (part: &str)
    requires
        from <= to <= text.spec_bytes().len(),
        is_char_boundary(text.spec_bytes(), from as int),
        is_char_boundary(text.spec_bytes(), to as int),
    ensures
        part.spec_bytes() == text.spec_bytes().subrange(from as int, to as int),
{
    let ghost bytes = text.spec_bytes();
    let (front, _) = text.split_at(to);
    proof {
        encode_utf8_valid_utf8(text@);
        valid_utf8_split(bytes, to as int);
        let cut = bytes.subrange(0, to as int);
        if from < to {
            is_char_boundary_iff_not_is_continuation_byte(bytes, from as int);
            is_char_boundary_iff_not_is_continuation_byte(cut, from as int);
            assert(cut[from as int] == bytes[from as int]);
        } else {
            is_char_boundary_start_end_of_seq(cut);
        }
    }
    let (_, part) = front.split_at(from);
    assert(part.spec_bytes() == bytes.subrange(from as int, to as int));
    part
}

/// What stands after the first `needle` in `text`, where there is one.
pub open spec fn after_first(text: Seq<char>, needle: Seq<char>) -> Option<Seq<char>>
    decreases text.len(),
{
    if stands_at(text, needle, 0) {
        Some(text.skip(needle.len() as int))
    } else if text.len() == 0 {
        None
    } else {
        after_first(text.skip(1), needle)
    }
}

proof fn lemma_stands_in_rest(text: Seq<char>, needle: Seq<char>, at: int)
    requires
        text.len() > 0,
        at >= 0,
    ensures
        stands_at(text.skip(1), needle, at) == stands_at(text, needle, at + 1),
{
    if at + needle.len() <= text.len() - 1 {
        assert(text.skip(1).subrange(at, at + needle.len()) == text.subrange(
            at + 1,
            at + 1 + needle.len(),
        ));
    }
}

/// What stands after the first place a text stands is what stands after it
/// there, and nothing where it stands nowhere.
pub proof fn first_place_splits(text: Seq<char>, needle: Seq<char>, at: int)
    ensures
        first_at(text, needle, at) ==> after_first(text, needle) == Some(
            text.skip(at + needle.len()),
        ),
        !holds(text, needle) ==> after_first(text, needle) is None,
    decreases text.len(),
{
    if !stands_at(text, needle, 0) && text.len() > 0 {
        let rest = text.skip(1);
        first_place_splits(rest, needle, at - 1);
        if first_at(text, needle, at) {
            lemma_stands_in_rest(text, needle, at - 1);
            assert forall|k: int| 0 <= k < at - 1 implies !stands_at(rest, needle, k) by {
                lemma_stands_in_rest(text, needle, k);
            }
            assert(rest.skip(at - 1 + needle.len()) == text.skip(at + needle.len()));
        }
        if !holds(text, needle) {
            assert forall|k: int| !stands_at(rest, needle, k) by {
                if k >= 0 {
                    lemma_stands_in_rest(text, needle, k);
                }
            }
        }
    } else if stands_at(text, needle, 0) && first_at(text, needle, at) && at > 0 {
        assert(!stands_at(text, needle, 0));
    }
}

/// What stands after the first `needle` in `text`, where there is one.
pub fn split_after<'a>(text: &'a str, needle: &str) -> (rest: Option<&'a str>)
    ensures
        match rest {
            Some(rest) => after_first(text@, needle@) == Some(rest@),
            None => after_first(text@, needle@) is None,
        },
{
    let found = find(text, needle);
    proof {
        first_place_splits(
            text@,
            needle@,
            match found {
                Some(at) => at as int,
                None => 0,
            },
        );
    }
    match found {
        Some(at) => {
            let to = text.unicode_len();
            let from: usize = at + needle.unicode_len();
            let rest = text.substring_char(from, to);
            assert(rest@ == text@.skip(from as int));
            Some(rest)
        },
        None => None,
    }
}

/// What stands before the first `stop`, or all of it where there is none.
pub fn part_before(text: &str, stop: char) -> (part: &str)
    ensures
        part@ == before(text@, stop),
{
    let run = run_length(text, stop);
    text.substring_char(0, run)
}

/// What stands after the first `stop`, where there is one.
pub fn part_after(text: &str, stop: char) -> (part: Option<&str>)
    ensures
        match part {
            Some(part) => after(text@, stop) == Some(part@),
            None => after(text@, stop) is None,
        },
{
    let run = run_length(text, stop);
    let len = text.unicode_len();
    if run < len {
        let part = text.substring_char(run + 1, len);
        assert(part@ == text@.skip(run + 1));
        Some(part)
    } else {
        None
    }
}

/// A text in quotation marks with what needs escaping escaped, as Rust's
/// `Debug` writes it.
pub uninterp spec fn quoted(text: Seq<char>) -> Seq<char>;

/// Quotes a text with the `Debug` of [`str`]
///
/// The contract names the result, which depends on the text alone.
#[verifier::external_body]
pub(crate) fn quote(text: &str) -> (out: String)
    ensures
        out@ == quoted(text@),
{
    format!("{:?}", text)
}

/// A text in lower case, as Rust's Unicode tables map it.
pub uninterp spec fn lowered(text: Seq<char>) -> Seq<char>;

/// Lowers a text with [`str::to_lowercase`]
///
/// The contract names the result, which depends on the text alone.
#[verifier::external_body]
pub(crate) fn lower(text: &str) -> (out: String)
    ensures
        out@ == lowered(text@),
{
    text.to_lowercase()
}

/// Bytes as text, with a replacement character where they are not UTF-8, as
/// [`String::from_utf8_lossy`] makes them.
pub uninterp spec fn lossy(bytes: Seq<u8>) -> Seq<char>;

/// Reads bytes as text with [`String::from_utf8_lossy`]
///
/// The contract names the result, which depends on the bytes alone, and claims
/// that bytes which are UTF-8 are read as the text they spell.
#[verifier::external_body]
pub(crate) fn read_lossy(bytes: &[u8]) -> (out: String)
    ensures
        out@ == lossy(bytes@),
        valid_utf8(bytes@) ==> encode_utf8(out@) == bytes@,
{
    String::from_utf8_lossy(bytes).into_owned()
}

/// How many characters stand before the first white space.
pub open spec fn word_run(text: Seq<char>) -> nat
    decreases text.len(),
{
    if text.len() == 0 || is_space(text[0]) {
        0
    } else {
        1 + word_run(text.skip(1))
    }
}

/// The words of a text: its longest runs without white space, in order.
pub open spec fn words_of(text: Seq<char>) -> Seq<Seq<char>>
    decreases text.len(),
{
    let word = word_run(text);
    if text.len() == 0 {
        Seq::empty()
    } else if is_space(text[0]) {
        words_of(text.skip(1))
    } else if word_run(text) >= text.len() {
        seq![text]
    } else {
        seq![text.take(word as int)] + words_of(text.skip(word as int + 1))
    }
}

/// A word followed by white space is the first word of a text.
pub proof fn words_split(word: Seq<char>, space: char, rest: Seq<char>)
    requires
        word.len() > 0,
        forall|i: int| 0 <= i < word.len() ==> !is_space(#[trigger] word[i]),
        is_space(space),
    ensures
        words_of(word.push(space) + rest) == seq![word] + words_of(rest),
{
    let text = word.push(space) + rest;
    lemma_word_run(text, word.len());
    assert(text.take(word.len() as int) == word);
    assert(text.skip(word.len() as int + 1) == rest);
    assert(!is_space(word[0]));
    assert(text[0] == word[0]);
}

proof fn lemma_word_run(text: Seq<char>, len: nat)
    requires
        len < text.len(),
        forall|i: int| 0 <= i < len ==> !is_space(#[trigger] text[i]),
        is_space(text[len as int]),
    ensures
        word_run(text) == len,
    decreases len,
{
    if len > 0 {
        assert(!is_space(text[0]));
        assert forall|i: int| 0 <= i < len - 1 implies !is_space(#[trigger] text.skip(1)[i]) by {
            assert(!is_space(text[i + 1]));
        }
        lemma_word_run(text.skip(1), (len - 1) as nat);
    }
}

/// The words of a text, as [`str::split_whitespace`] parts them.
pub fn words(text: &str) -> (words: Vec<String>)
    ensures
        texts(words@) == words_of(text@),
{
    let chars = chars_of(text);
    let mut words: Vec<String> = Vec::new();
    let mut at: usize = 0;
    assert(chars@.skip(0) == chars@);
    while at < chars.len()
        invariant
            at <= chars.len(),
            chars@ == text@,
            words_of(text@) == texts(words@) + words_of(text@.skip(at as int)),
        decreases chars.len() - at,
    {
        let ghost rest = text@.skip(at as int);
        if is_white(chars[at]) {
            assert(rest.skip(1) == text@.skip(at + 1));
            at += 1;
        } else {
            let start: usize = at;
            while at < chars.len() && !is_white(chars[at])
                invariant
                    start <= at <= chars.len(),
                    chars@ == text@,
                    rest == text@.skip(start as int),
                    word_run(rest) == at - start + word_run(text@.skip(at as int)),
                decreases chars.len() - at,
            {
                assert(text@.skip(at as int).skip(1) == text@.skip(at + 1));
                at += 1;
            }
            let word = text.substring_char(start, at).to_owned();
            let ghost before = texts(words@);
            words.push(word);
            assert(texts(words@) == before.push(word@));
            assert(word@ == rest.take(at - start));
            if at < chars.len() {
                assert(rest.skip(at - start + 1) == text@.skip(at + 1));
                assert(words_of(rest) == seq![word@] + words_of(text@.skip(at + 1)));
                at += 1;
            } else {
                assert(word@ == rest);
                assert(text@.skip(at as int) == Seq::<char>::empty());
                assert(words_of(rest) == seq![word@] + words_of(text@.skip(at as int)));
            }
        }
    }
    assert(text@.skip(at as int) == Seq::<char>::empty());
    words
}

/// A number in decimal is digits, none of them white space or a sign, and
/// reads back as the number.
pub proof fn decimals_read_back(n: nat)
    ensures
        decimal(n).len() > 0,
        all_digits(decimal(n)),
        digits_value(decimal(n)) == n,
        forall|i: int| 0 <= i < decimal(n).len() ==> !is_space(#[trigger] decimal(n)[i]),
        n <= u64::MAX ==> read_number(decimal(n)) == Some(n as u64),
    decreases n,
{
    let text = decimal(n);
    if n < 10 {
        assert(text.drop_last() == Seq::<char>::empty());
        assert(digit(n) as nat == 48 + n);
        assert(digits_value(text.drop_last()) == 0);
    } else {
        decimals_read_back(n / 10);
        assert(text.drop_last() == decimal(n / 10));
        assert(digit(n % 10) as nat == 48 + n % 10);
        assert forall|i: int| 0 <= i < text.len() implies is_digit(#[trigger] text[i]) by {
            if i < text.len() - 1 {
                assert(text[i] == decimal(n / 10)[i]);
            }
        }
    }
    assert forall|i: int| 0 <= i < text.len() implies !is_space(#[trigger] text[i]) by {
        assert(is_digit(text[i]));
    }
    assert(is_digit(text[0]));
    assert(unsigned_digits(text) == text);
}

/// What stands after a text's first needle goes on to whatever is written after
/// the text.
pub proof fn a_later_text_leaves_the_first_place(
    text: Seq<char>,
    needle: Seq<char>,
    more: Seq<char>,
)
    requires
        after_first(text, needle) is Some,
    ensures
        after_first(text + more, needle) == Some(after_first(text, needle)->0 + more),
    decreases text.len(),
{
    let all = text + more;
    lemma_after_first_len(text, needle);
    if stands_at(text, needle, 0) {
        assert(all.subrange(0, needle.len() as int) =~= text.subrange(0, needle.len() as int));
        assert(all.skip(needle.len() as int) =~= text.skip(needle.len() as int) + more);
    } else {
        if stands_at(all, needle, 0) {
            assert(all.subrange(0, needle.len() as int) =~= text.subrange(0, needle.len() as int));
        }
        assert(all.skip(1) =~= text.skip(1) + more);
        a_later_text_leaves_the_first_place(text.skip(1), needle, more);
    }
}

proof fn lemma_after_first_len(text: Seq<char>, needle: Seq<char>)
    requires
        after_first(text, needle) is Some,
    ensures
        text.len() >= needle.len(),
    decreases text.len(),
{
    if !stands_at(text, needle, 0) {
        lemma_after_first_len(text.skip(1), needle);
    }
}

/// What stands before the first `stop` of a text that has one, and after it,
/// goes on as it was to whatever is written after the text.
pub proof fn a_later_text_leaves_the_parts(text: Seq<char>, stop: char, more: Seq<char>)
    requires
        after(text, stop) is Some,
    ensures
        before(text + more, stop) == before(text, stop),
        after(text + more, stop) == Some(after(text, stop)->0 + more),
{
    lemma_run_before(text, stop, more);
    let run = run_before(text, stop) as int;
    assert((text + more).take(run) =~= text.take(run));
    assert((text + more).skip(run + 1) =~= text.skip(run + 1) + more);
}

proof fn lemma_run_before(text: Seq<char>, stop: char, more: Seq<char>)
    requires
        run_before(text, stop) < text.len(),
    ensures
        run_before(text + more, stop) == run_before(text, stop),
    decreases text.len(),
{
    if text[0] != stop {
        assert((text + more).skip(1) =~= text.skip(1) + more);
        lemma_run_before(text.skip(1), stop, more);
    }
}

/// A text has nothing after a `stop` where there is none in it.
pub proof fn a_text_has_no_stop_where_it_holds_none(text: Seq<char>, stop: char)
    ensures
        after(text, stop) is None <==> !text.contains(stop),
        after(text, stop) is None ==> before(text, stop) == text,
    decreases text.len(),
{
    if text.len() > 0 {
        let rest = text.skip(1);
        a_text_has_no_stop_where_it_holds_none(rest, stop);
        if text[0] != stop {
            if text.contains(stop) {
                let i = choose|i: int| 0 <= i < text.len() && text[i] == stop;
                assert(rest[i - 1] == stop);
            }
            if rest.contains(stop) {
                let i = choose|i: int| 0 <= i < rest.len() && rest[i] == stop;
                assert(text[i + 1] == stop);
            }
        } else {
            assert(text.contains(text[0]));
        }
        if after(text, stop) is None {
            lemma_no_stop(text, stop, seq![stop]);
        }
    }
    assert(text.take(text.len() as int) =~= text);
}

/// A text with no `stop` in it stands whole before one written after it.
pub proof fn a_text_without_a_stop_stands_before_it(text: Seq<char>, stop: char, more: Seq<char>)
    requires
        after(text, stop) is None,
        more.len() > 0,
        more[0] == stop,
    ensures
        before(text, stop) == text,
        before(text + more, stop) == text,
        after(text + more, stop) == Some(more.skip(1)),
{
    lemma_no_stop(text, stop, more);
    assert(text.take(text.len() as int) =~= text);
    assert((text + more).take(text.len() as int) =~= text);
    assert((text + more).skip(text.len() as int + 1) =~= more.skip(1));
}

proof fn lemma_no_stop(text: Seq<char>, stop: char, more: Seq<char>)
    requires
        run_before(text, stop) >= text.len(),
        more.len() > 0,
        more[0] == stop,
    ensures
        run_before(text, stop) == text.len(),
        run_before(text + more, stop) == text.len(),
    decreases text.len(),
{
    if text.len() > 0 {
        assert((text + more).skip(1) =~= text.skip(1) + more);
        assert((text + more)[0] == text[0]);
        lemma_no_stop(text.skip(1), stop, more);
    } else {
        assert(text + more =~= more);
    }
}

/// From anywhere in a text a boundary is no more than three bytes on.
pub proof fn the_next_boundary_is_close(bytes: Seq<u8>, from: int)
    requires
        valid_utf8(bytes),
        0 <= from <= bytes.len(),
    ensures
        boundary_from(bytes, from, bytes.len() as int) - from <= 3,
{
    let at = if from + 3 < bytes.len() {
        from + 3
    } else {
        bytes.len() as int
    };
    is_char_boundary_start_end_of_seq(bytes);
    if at < bytes.len() {
        let known = lemma_boundary_within_four(bytes, at);
        lemma_boundary_from(bytes, from, bytes.len() as int, known);
    } else {
        lemma_boundary_from(bytes, from, bytes.len() as int, bytes.len() as int);
    }
}

/// Texts sort by the first place where they differ, by code point there; and a
/// text sorts before whatever goes on from it.
pub proof fn texts_sort_by_their_first_difference(common: Seq<char>, a: Seq<char>, b: Seq<char>)
    requires
        a.len() == 0 || b.len() == 0 || a[0] != b[0],
    ensures
        sorts_before(common + a, common + b) <==> if a.len() == 0 || b.len() == 0 {
            a.len() == 0 && b.len() > 0
        } else {
            (a[0] as int) < (b[0] as int)
        },
    decreases common.len(),
{
    let one = common + a;
    let other = common + b;
    if common.len() == 0 {
        assert(one =~= a);
        assert(other =~= b);
    } else {
        texts_sort_by_their_first_difference(common.skip(1), a, b);
        assert(one.skip(1) =~= common.skip(1) + a);
        assert(other.skip(1) =~= common.skip(1) + b);
        assert(one[0] == common[0] && other[0] == common[0]);
        assert(sorts_before(one, other) == sorts_before(one.skip(1), other.skip(1)));
    }
}

/// A suffix is taken off exactly the texts that end in it.
pub proof fn a_suffix_is_taken_off_what_ends_in_it(text: Seq<char>, suffix: Seq<char>)
    ensures
        stripped(text + suffix, suffix) == Some(text),
        stripped(text, suffix) is Some <==> suffix.is_suffix_of(text),
        stripped(text, suffix) is Some ==> stripped(text, suffix)->0 + suffix == text,
{
    let whole = text + suffix;
    assert(whole.subrange(whole.len() - suffix.len(), whole.len() as int) =~= suffix);
    assert(whole.take(whole.len() - suffix.len()) =~= text);
    if suffix.len() <= text.len() {
        let from = text.len() - suffix.len();
        assert(text.subrange(from, text.len() as int) =~= text.skip(from));
        assert(text.take(from) + text.skip(from) =~= text);
    }
}

/// White space before a word is no part of it, and a text without any is one
/// word.
pub proof fn words_stand_between_white_space(text: Seq<char>, space: char)
    requires
        is_space(space),
    ensures
        words_of(seq![space] + text) == words_of(text),
        text.len() > 0 && (forall|i: int| 0 <= i < text.len() ==> !is_space(#[trigger] text[i]))
            ==> words_of(text) == seq![text],
        text.len() == 0 ==> words_of(text).len() == 0,
{
    assert((seq![space] + text).skip(1) =~= text);
    if text.len() > 0 && forall|i: int| 0 <= i < text.len() ==> !is_space(#[trigger] text[i]) {
        lemma_one_word(text);
        assert(!is_space(text[0]));
    }
}

proof fn lemma_one_word(text: Seq<char>)
    requires
        forall|i: int| 0 <= i < text.len() ==> !is_space(#[trigger] text[i]),
    ensures
        word_run(text) == text.len(),
    decreases text.len(),
{
    if text.len() > 0 {
        assert(!is_space(text[0]));
        assert forall|i: int| 0 <= i < text.len() - 1 implies !is_space(
            #[trigger] text.skip(1)[i],
        ) by {
            assert(!is_space(text[i + 1]));
        }
        lemma_one_word(text.skip(1));
    }
}

/// A text reads as the number whose digits it is, with a plus sign and with
/// zeros before them or without, and as no number where it is anything else or
/// the number is one too many.
pub proof fn a_text_reads_as_the_number_it_spells(n: nat, digits: Seq<char>, text: Seq<char>)
    requires
        digits.len() > 0 && all_digits(digits),
    ensures
        n <= 0xffff_ffff_ffff_ffff ==> read_number(decimal(n)) == Some(n as u64) && read_number(
            seq!['+'] + decimal(n),
        ) == Some(n as u64),
        n > 0xffff_ffff_ffff_ffff ==> read_number(decimal(n)) is None,
        read_number(seq!['0'] + digits) == read_number(digits),
        read_number(seq!['+'] + digits) == read_number(digits),
        n > 0 ==> decimal(n)[0] != '0',
        read_number(text) is Some ==> (text[0] == '+' && text.len() > 1 || '0' <= text[0] <= '9')
            && forall|i: int| 1 <= i < text.len() ==> '0' <= #[trigger] text[i] <= '9',
        read_number(seq!['+']) is None && read_number(Seq::empty()) is None,
{
    decimals_read_back(n);
    lemma_no_zero_before(n);
    assert((seq!['+'] + decimal(n)).skip(1) =~= decimal(n));
    assert((seq!['+'] + digits).skip(1) =~= digits);
    assert(seq!['+'].skip(1) =~= Seq::empty());
    assert(is_digit(digits[0]));
    assert(is_digit(decimal(n)[0]));
    let longer = seq!['0'] + digits;
    assert forall|i: int| 0 <= i < longer.len() implies is_digit(#[trigger] longer[i]) by {
        if i > 0 {
            assert(is_digit(digits[i - 1]));
        }
    }
    lemma_zero_before(digits);
    if read_number(text) is Some {
        let read = unsigned_digits(text);
        assert forall|i: int| 1 <= i < text.len() implies '0' <= #[trigger] text[i] <= '9' by {
            assert(is_digit(read[if text[0] == '+' { i - 1 } else { i }]));
        }
        assert(is_digit(read[0]));
    }
}

proof fn lemma_zero_before(digits: Seq<char>)
    ensures
        digits_value(seq!['0'] + digits) == digits_value(digits),
    decreases digits.len(),
{
    let longer = seq!['0'] + digits;
    if digits.len() == 0 {
        assert(longer.drop_last() =~= Seq::empty());
        assert(longer.last() == '0');
        assert(digits_value(longer.drop_last()) == 0);
    } else {
        lemma_zero_before(digits.drop_last());
        assert(longer.drop_last() =~= seq!['0'] + digits.drop_last());
        assert(longer.last() == digits.last());
    }
}

proof fn lemma_no_zero_before(n: nat)
    ensures
        decimal(n).len() > 0,
        n > 0 ==> decimal(n)[0] != '0',
    decreases n,
{
    if n >= 10 {
        lemma_no_zero_before(n / 10);
        assert(decimal(n)[0] == decimal(n / 10)[0]);
    } else if n > 0 {
        assert(digit(n) as nat == 48 + n);
    }
}

/// Making a text's ASCII letters small leaves every other character, and how
/// many there are, as they were, and each capital is its own small letter.
pub proof fn only_ascii_capitals_are_made_small(text: Seq<char>, i: int, k: int)
    requires
        0 <= i < text.len(),
        0 <= k < 26,
    ensures
        ascii_small(text).len() == text.len(),
        text[i] == "ABCDEFGHIJKLMNOPQRSTUVWXYZ"@[k] ==> ascii_small(text)[i]
            == "abcdefghijklmnopqrstuvwxyz"@[k],
        !("ABCDEFGHIJKLMNOPQRSTUVWXYZ"@.contains(text[i])) ==> ascii_small(text)[i] == text[i],
{
    reveal_strlit("ABCDEFGHIJKLMNOPQRSTUVWXYZ");
    reveal_strlit("abcdefghijklmnopqrstuvwxyz");
    let capitals = "ABCDEFGHIJKLMNOPQRSTUVWXYZ"@;
    assert forall|j: int| 0 <= j < 26 implies #[trigger] capitals[j] as int == 65 + j by {
    }
    assert("abcdefghijklmnopqrstuvwxyz"@[k] as int == 97 + k);
    if 'A' <= text[i] && text[i] <= 'Z' {
        let j = text[i] as int - 65;
        assert(capitals[j] as int == text[i] as int);
        assert(capitals[j] == text[i]);
    }
    if text[i] == capitals[k] {
        assert(small(text[i]) as int == 97 + k);
        assert(small(text[i]) == "abcdefghijklmnopqrstuvwxyz"@[k]);
    }
}

/// The characters with Unicode's property of white space.
pub open spec fn white_space() -> Seq<char> {
    "\t\n\u{b}\u{c}\r \u{85}\u{a0}\u{1680}\u{2000}\u{2001}\u{2002}\u{2003}\u{2004}\u{2005}\u{2006}\u{2007}\u{2008}\u{2009}\u{200a}\u{2028}\u{2029}\u{202f}\u{205f}\u{3000}"@
}

/// White space is what Unicode calls so: the tab, the line breaks, the spaces
/// of every width, and nothing that is drawn.
pub proof fn white_space_is_what_unicode_calls_so(c: char)
    ensures
        is_space(c) <==> white_space().contains(c),
{
    reveal_strlit(
        "\t\n\u{b}\u{c}\r \u{85}\u{a0}\u{1680}\u{2000}\u{2001}\u{2002}\u{2003}\u{2004}\u{2005}\u{2006}\u{2007}\u{2008}\u{2009}\u{200a}\u{2028}\u{2029}\u{202f}\u{205f}\u{3000}",
    );
    let white = white_space();
    assert(white.len() == 25);
    let code = c as u32;
    assert(white[0] as u32 == 9 && white[1] as u32 == 10 && white[2] as u32 == 11 && white[3] as u32
        == 12 && white[4] as u32 == 13 && white[5] as u32 == 32 && white[6] as u32 == 0x85
        && white[7] as u32 == 0xa0 && white[8] as u32 == 0x1680);
    assert forall|j: int| 0 <= j < 11 implies #[trigger] white[9 + j] as int == 0x2000 + j by {
    }
    assert(white[20] as u32 == 0x2028 && white[21] as u32 == 0x2029 && white[22] as u32 == 0x202f
        && white[23] as u32 == 0x205f && white[24] as u32 == 0x3000);
    if is_space(c) {
        let at: int = if code <= 13 {
            code - 9
        } else if code == 0x20 {
            5
        } else if code == 0x85 {
            6
        } else if code == 0xa0 {
            7
        } else if code == 0x1680 {
            8
        } else if code <= 0x200a {
            9 + (code - 0x2000)
        } else if code == 0x2028 {
            20
        } else if code == 0x2029 {
            21
        } else if code == 0x202f {
            22
        } else if code == 0x205f {
            23
        } else {
            24
        };
        assert(white[at] as int == c as int);
        assert(white[at] == c);
    } else if white.contains(c) {
        let at = choose|at: int| 0 <= at < white.len() && white[at] == c;
        if 9 <= at < 20 {
            assert(white[9 + (at - 9)] as int == 0x2000 + (at - 9));
        }
    }
}

/// Some texts one after another.
pub open spec fn strung(parts: Seq<Seq<char>>) -> Seq<char>
    decreases parts.len(),
{
    if parts.len() == 0 {
        Seq::empty()
    } else {
        strung(parts.drop_last()) + parts.last()
    }
}

/// Some texts one after another, with a space between each.
pub open spec fn spaced(parts: Seq<Seq<char>>) -> Seq<char>
    decreases parts.len(),
{
    if parts.len() == 0 {
        Seq::empty()
    } else if parts.len() == 1 {
        parts[0]
    } else {
        spaced(parts.drop_last()) + " "@ + parts.last()
    }
}

/// A text strung or spaced after others comes last, after the space.
pub proof fn a_text_is_strung_last(parts: Seq<Seq<char>>, part: Seq<char>)
    ensures
        strung(parts.push(part)) == strung(parts) + part,
        parts.len() > 0 ==> spaced(parts.push(part)) == spaced(parts) + " "@ + part,
{
    assert(parts.push(part).drop_last() =~= parts);
}

} // verus!
