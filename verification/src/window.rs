//! Retention windows, as an operator writes them.

use crate::text::{
    a_part_stands_in_the_whole, decimal, decimals_read_back, holds, is_digit, parse_number, quote,
    quoted, read_number,
};
use vstd::prelude::*;
use vstd::string::{StrSliceExecFns, StringExecFns};

verus! {

/// How many seconds the last letter of a window stands for, where it is one.
pub open spec fn unit(c: char) -> Option<nat> {
    if c == 'h' {
        Some(3_600)
    } else if c == 'd' {
        Some(86_400)
    } else if c == 'm' {
        Some(60)
    } else if c == 's' {
        Some(1)
    } else {
        None
    }
}

/// The seconds a window stands for, or why it stands for none.
pub open spec fn window_of(text: Seq<char>) -> Result<u64, Seq<char>> {
    let (count, scale) = if text.len() > 0 && unit(text.last()) is Some {
        (text.drop_last(), unit(text.last())->0)
    } else {
        (text, 1nat)
    };
    match read_number(count) {
        Some(count) => if count * scale <= u64::MAX {
            Ok((count * scale) as u64)
        } else {
            Err(quoted(text) + " is longer than time"@)
        },
        None => Err(quoted(text) + " is not a window like 48h or 7d"@),
    }
}

/// A retention window in seconds: `48h`, `7d`, `90m`, or a plain count of
/// seconds.
pub fn window(text: &str) -> (read: Result<u64, String>)
    ensures
        match read {
            Ok(secs) => window_of(text@) == Ok::<u64, Seq<char>>(secs),
            Err(said) => window_of(text@) == Err::<u64, Seq<char>>(said@),
        },
{
    let len = text.unicode_len();
    let scale: Option<u64> = if len == 0 {
        None
    } else {
        match text.get_char(len - 1) {
            'h' => Some(3_600),
            'd' => Some(86_400),
            'm' => Some(60),
            's' => Some(1),
            _ => None,
        }
    };
    let (count, scale): (&str, u64) = match scale {
        Some(scale) => {
            let count = text.substring_char(0, len - 1);
            assert(count@ == text@.drop_last());
            (count, scale)
        },
        None => (text, 1),
    };
    match parse_number(count) {
        Some(count) => match count.checked_mul(scale) {
            Some(secs) => Ok(secs),
            None => Err(quote(text).concat(" is longer than time")),
        },
        None => Err(quote(text).concat(" is not a window like 48h or 7d")),
    }
}

/// A window is a count and a unit: hours, days, minutes or seconds, and seconds
/// where it has none. It is that many seconds where they can be counted, and
/// longer than time where they cannot.
pub proof fn a_window_is_its_count_in_its_unit(count: u64)
    ensures
        ({
            let digits = decimal(count as nat);
            &&& window_of(digits) == Ok::<u64, Seq<char>>(count)
            &&& window_of(digits.push('s')) == Ok::<u64, Seq<char>>(count)
            &&& count * 60 <= u64::MAX ==> window_of(digits.push('m')) == Ok::<u64, Seq<char>>(
                (count * 60) as u64,
            )
            &&& count * 3600 <= u64::MAX ==> window_of(digits.push('h')) == Ok::<u64, Seq<char>>(
                (count * 3600) as u64,
            )
            &&& count * 86_400 <= u64::MAX ==> window_of(digits.push('d')) == Ok::<u64, Seq<char>>(
                (count * 86_400) as u64,
            )
            &&& count * 60 > u64::MAX ==> window_of(digits.push('m')) is Err
            &&& count * 3600 > u64::MAX ==> window_of(digits.push('h')) is Err
            &&& count * 86_400 > u64::MAX ==> window_of(digits.push('d')) is Err
        }),
{
    let digits = decimal(count as nat);
    decimals_read_back(count as nat);
    assert(is_digit(digits[digits.len() - 1]));
    assert(digits.last() == digits[digits.len() - 1]);
    assert(unit(digits.last()) is None);
    assert(digits.push('s').last() == 's' && digits.push('m').last() == 'm');
    assert(digits.push('h').last() == 'h' && digits.push('d').last() == 'd');
    assert(digits.push('s').drop_last() =~= digits);
    assert(digits.push('m').drop_last() =~= digits);
    assert(digits.push('h').drop_last() =~= digits);
    assert(digits.push('d').drop_last() =~= digits);
}

/// What is no count, with a unit or without one, is no window, and is quoted
/// back to whoever wrote it.
pub proof fn what_is_no_count_is_no_window(text: Seq<char>)
    requires
        read_number(text) is None,
        text.len() > 0 ==> read_number(text.drop_last()) is None,
    ensures
        window_of(text) is Err,
        holds(window_of(text)->Err_0, quoted(text)),
{
    let said = window_of(text)->Err_0;
    assert(said =~= Seq::<char>::empty() + quoted(text) + " is not a window like 48h or 7d"@);
    a_part_stands_in_the_whole(
        Seq::empty(),
        quoted(text),
        " is not a window like 48h or 7d"@,
    );
}

/// A text is read by its last letter: as so many hours, days, minutes or
/// seconds where that is `h`, `d`, `m` or `s`, and otherwise as a count of
/// seconds with the letter in it. It is refused where it is no count, or comes
/// to more seconds than can be counted, and is then quoted back.
pub proof fn a_window_is_read_by_its_last_letter(count: Seq<char>, letter: char)
    ensures
        ({
            let text = count.push(letter);
            let scaled = letter == 'h' || letter == 'd' || letter == 'm' || letter == 's';
            let scale: nat = if letter == 'h' {
                60 * 60
            } else if letter == 'd' {
                24 * 60 * 60
            } else if letter == 'm' {
                60
            } else {
                1
            };
            let read = read_number(
                if scaled {
                    count
                } else {
                    text
                },
            );
            match read {
                Some(n) => if n * scale <= u64::MAX {
                    window_of(text) == Ok::<u64, Seq<char>>((n * scale) as u64)
                } else {
                    window_of(text) == Err::<u64, Seq<char>>(
                        quoted(text) + " is longer than time"@,
                    )
                },
                None => window_of(text) == Err::<u64, Seq<char>>(
                    quoted(text) + " is not a window like 48h or 7d"@,
                ),
            }
        }),
        window_of(Seq::empty()) is Err,
{
    let text = count.push(letter);
    assert(text.drop_last() =~= count);
    assert(text.last() == letter);
}

} // verus!
