//! Duration texts of the form `H:M:S` and the seconds they stand for.
//!
//! A text is cut at its colons. With exactly three fields it stands for
//! `3600 * H + 60 * M + S`; with any other number of fields it stands for
//! zero. A field that is not an unsigned decimal number that fits in 32 bits
//! counts as zero, so one bad field never spoils a batch.

use crate::text::{chars_of, find_mark, lemma_mark_found, mark_free, mark_from};
use vstd::prelude::*;

verus! {

/// Whether `c` is one of the ten ASCII digits.
pub open spec fn is_digit(c: char) -> bool {
    '0' <= c && c <= '9'
}

/// The number that the digit `c` stands for.
pub open spec fn digit_value(c: char) -> nat
    recommends
        is_digit(c),
{
    (c as u32 - '0' as u32) as nat
}

/// Whether every item of `s` is an ASCII digit.
pub open spec fn all_digits(s: Seq<char>) -> bool {
    forall|i: int| 0 <= i < s.len() ==> is_digit(#[trigger] s[i])
}

/// The number that a run of digits stands for, read in base ten.
pub open spec fn decimal_value(s: Seq<char>) -> nat
    decreases s.len(),
{
    if s.len() == 0 {
        0
    } else {
        10 * decimal_value(s.drop_last()) + digit_value(s.last())
    }
}

/// A field without the one `+` that may lead it.
pub open spec fn unsigned_digits(s: Seq<char>) -> Seq<char> {
    if s.len() > 0 && s[0] == '+' {
        s.subrange(1, s.len() as int)
    } else {
        s
    }
}

/// Whether a field is an unsigned decimal number that fits in 32 bits:
/// an optional `+`, then at least one digit and nothing else.
pub open spec fn is_number_field(s: Seq<char>) -> bool {
    let digits = unsigned_digits(s);
    &&& digits.len() > 0
    &&& all_digits(digits)
    &&& decimal_value(digits) <= u32::MAX
}

/// The value of one field: its number, or zero where it is not one.
pub open spec fn field_value(s: Seq<char>) -> nat {
    if is_number_field(s) {
        decimal_value(unsigned_digits(s))
    } else {
        0
    }
}

/// The seconds that a duration text stands for.
pub open spec fn time_seconds(s: Seq<char>) -> nat {
    let first = mark_from(s, ':', 0);
    let second = mark_from(s, ':', first + 1);
    let third = mark_from(s, ':', second + 1);
    if first < s.len() && second < s.len() && third >= s.len() {
        3600 * field_value(s.subrange(0, first)) + 60 * field_value(
            s.subrange(first + 1, second),
        ) + field_value(s.subrange(second + 1, s.len() as int))
    } else {
        0
    }
}

/// Appending a digit to a run of digits never lowers its value.
proof fn lemma_decimal_grows(s: Seq<char>, n: int)
    requires
        0 <= n <= s.len(),
    ensures
        decimal_value(s.take(n)) <= decimal_value(s),
    decreases s.len() - n,
{
    if n < s.len() {
        lemma_decimal_grows(s, n + 1);
        assert(s.take(n + 1).drop_last() == s.take(n));
    } else {
        assert(s.take(n) == s);
    }
}

/// Reads the field that lies between `lo` and `hi`.
pub(crate) fn parse_field(chars: &Vec<char>, lo: usize, hi: usize) -> (value: u32)
    requires
        lo <= hi <= chars.len(),
    ensures
        value == field_value(chars@.subrange(lo as int, hi as int)),
{
    let ghost field = chars@.subrange(lo as int, hi as int);
    let start: usize = if lo < hi && chars[lo] == '+' {
        lo + 1
    } else {
        lo
    };
    let ghost digits = unsigned_digits(field);
    assert(digits == chars@.subrange(start as int, hi as int));
    if start == hi {
        return 0;
    }
    let mut value: u64 = 0;
    let mut at: usize = start;
    while at < hi
        invariant
            lo <= start <= at <= hi <= chars.len(),
            field == chars@.subrange(lo as int, hi as int),
            digits == unsigned_digits(field),
            digits == chars@.subrange(start as int, hi as int),
            all_digits(digits.take(at - start)),
            value == decimal_value(digits.take(at - start)),
            value <= u32::MAX,
        decreases hi - at,
    {
        let c = chars[at];
        assert(c == digits[at - start]);
        if !(c >= '0' && c <= '9') {
            assert(!is_digit(digits[at - start]));
            assert(!is_number_field(field));
            return 0;
        }
        let ghost longer = digits.take(at - start + 1);
        assert(longer.drop_last() == digits.take(at - start));
        assert(longer.last() == c);
        value = value * 10 + (c as u64 - '0' as u64);
        assert(value == decimal_value(longer));
        if value > 0xffff_ffff {
            proof {
                lemma_decimal_grows(digits, at - start + 1);
                assert(!is_number_field(field));
            }
            return 0;
        }
        at += 1;
    }
    assert(digits.take(at - start) == digits);
    assert(is_number_field(field));
    value as u32
}

/// Reads a duration text by cutting it at its colons.
pub fn parse_time_string_fast(time_str: &str) -> (seconds: u64)
    ensures
        seconds == time_seconds(time_str@),
{
    let chars = chars_of(time_str);
    let n = chars.len();
    let first = find_mark(&chars, ':', 0);
    if first >= n {
        return 0;
    }
    let second = find_mark(&chars, ':', first + 1);
    if second >= n {
        return 0;
    }
    let third = find_mark(&chars, ':', second + 1);
    if third < n {
        return 0;
    }
    let hours = parse_field(&chars, 0, first);
    let minutes = parse_field(&chars, first + 1, second);
    let seconds = parse_field(&chars, second + 1, n);
    hours as u64 * 3600 + minutes as u64 * 60 + seconds as u64
}

/// A text made of three colon-free fields with colons between stands for the
/// seconds of those three fields.
pub proof fn lemma_three_fields(hours: Seq<char>, minutes: Seq<char>, seconds: Seq<char>)
    requires
        mark_free(hours, ':'),
        mark_free(minutes, ':'),
        mark_free(seconds, ':'),
    ensures
        time_seconds(hours + seq![':'] + minutes + seq![':'] + seconds) == 3600 * field_value(
            hours,
        ) + 60 * field_value(minutes) + field_value(seconds),
{
    let text = hours + seq![':'] + minutes + seq![':'] + seconds;
    let first = hours.len() as int;
    let second = first + 1 + minutes.len();
    let end = text.len() as int;
    assert forall|i: int| 0 <= i < first implies #[trigger] text[i] != ':' by {
        assert(text[i] == hours[i]);
    }
    assert forall|i: int| first + 1 <= i < second implies #[trigger] text[i] != ':' by {
        assert(text[i] == minutes[i - first - 1]);
    }
    assert forall|i: int| second + 1 <= i < end implies #[trigger] text[i] != ':' by {
        assert(text[i] == seconds[i - second - 1]);
    }
    lemma_mark_found(text, ':', 0, first);
    lemma_mark_found(text, ':', first + 1, second);
    lemma_mark_found(text, ':', second + 1, end);
    assert(text.subrange(0, first) == hours);
    assert(text.subrange(first + 1, second) == minutes);
    assert(text.subrange(second + 1, end) == seconds);
}

} // verus!
