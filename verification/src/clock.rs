//! Whole seconds written as a clock text.
//!
//! A number of seconds is written as hours, minutes and seconds with colons
//! between, or as minutes and seconds. Each part has at least two digits;
//! the leading part grows as far as it must. Reading such a text back gives
//! the seconds it was written from.

use crate::text::{chars_of, mark_free, same_text};
use crate::time_text::{
    all_digits, decimal_value, field_value, is_digit, is_number_field, lemma_three_fields,
    time_seconds, unsigned_digits,
};
use vstd::prelude::*;
use vstd::string::StringExecFns;

verus! {

/// How a time is to be written.
#[derive(Clone, Copy, Debug, PartialEq, Eq, Structural)]
pub enum TimeFormat {
    /// Hours, minutes and seconds.
    Clock,
    /// Minutes and seconds.
    MinuteClock,
    /// Seconds with their fraction, which is not a clock text.
    Seconds,
}

/// The name of the format of minutes and seconds.
pub open spec fn minute_clock_name() -> Seq<char> {
    seq!['M', 'M', ':', 'S', 'S']
}

/// The name of the format of seconds with their fraction.
pub open spec fn seconds_name() -> Seq<char> {
    seq!['s', 'e', 'c', 'o', 'n', 'd', 's']
}

/// The format that a name stands for; a name that is none of the three
/// stands for hours, minutes and seconds.
pub open spec fn format_named(name: Seq<char>) -> TimeFormat {
    if name == minute_clock_name() {
        TimeFormat::MinuteClock
    } else if name == seconds_name() {
        TimeFormat::Seconds
    } else {
        TimeFormat::Clock
    }
}

/// The digit that stands for a number below ten.
pub open spec fn digit_of(d: int) -> char {
    if d == 0 {
        '0'
    } else if d == 1 {
        '1'
    } else if d == 2 {
        '2'
    } else if d == 3 {
        '3'
    } else if d == 4 {
        '4'
    } else if d == 5 {
        '5'
    } else if d == 6 {
        '6'
    } else if d == 7 {
        '7'
    } else if d == 8 {
        '8'
    } else {
        '9'
    }
}

/// A number written in base ten, without leading zeros.
pub open spec fn decimal_text(n: nat) -> Seq<char>
    decreases n,
{
    if n < 10 {
        seq![digit_of(n as int)]
    } else {
        decimal_text(n / 10).push(digit_of((n % 10) as int))
    }
}

/// A number written in base ten with at least two digits.
pub open spec fn two_digits(n: nat) -> Seq<char> {
    if n < 10 {
        seq!['0', digit_of(n as int)]
    } else {
        decimal_text(n)
    }
}

/// Seconds written as hours, minutes and seconds.
pub open spec fn clock_text(total_seconds: nat) -> Seq<char> {
    two_digits(total_seconds / 3600) + seq![':'] + two_digits((total_seconds % 3600) / 60) + seq![
        ':',
    ] + two_digits(total_seconds % 60)
}

/// Seconds written as minutes and seconds.
pub open spec fn minute_clock_text(total_seconds: nat) -> Seq<char> {
    two_digits(total_seconds / 60) + seq![':'] + two_digits(total_seconds % 60)
}

/// A number written in base ten is made of digits and reads back as itself.
pub proof fn lemma_decimal_text(n: nat)
    ensures
        decimal_text(n).len() > 0,
        all_digits(decimal_text(n)),
        mark_free(decimal_text(n), ':'),
        decimal_value(decimal_text(n)) == n,
    decreases n,
{
    let text = decimal_text(n);
    if n < 10 {
        assert(text.drop_last().len() == 0);
        assert(decimal_value(text.drop_last()) == 0);
        assert(text.last() == digit_of(n as int));
    } else {
        lemma_decimal_text(n / 10);
        assert(text.drop_last() == decimal_text(n / 10));
        assert(text.last() == digit_of((n % 10) as int));
        assert forall|i: int| 0 <= i < text.len() implies is_digit(#[trigger] text[i]) && text[i]
            != ':' by {
            if i < text.len() - 1 {
                assert(text[i] == decimal_text(n / 10)[i]);
            }
        }
    }
}

/// A number written with at least two digits is a field that reads back as
/// the number, as long as the number fits in 32 bits.
pub proof fn lemma_two_digits(n: nat)
    ensures
        two_digits(n).len() >= 2,
        mark_free(two_digits(n), ':'),
        n <= u32::MAX ==> field_value(two_digits(n)) == n,
{
    lemma_decimal_text(n);
    let text = two_digits(n);
    if n < 10 {
        assert(text.drop_last() == seq!['0']);
        assert(text.drop_last().drop_last().len() == 0);
        assert(decimal_value(text.drop_last().drop_last()) == 0);
        assert(decimal_value(text.drop_last()) == 0);
        assert(decimal_value(text) == n);
    } else {
        lemma_decimal_text(n / 10);
        assert(decimal_text(n).len() == decimal_text(n / 10).len() + 1);
    }
    assert(text[0] != '+');
    assert(unsigned_digits(text) == text);
    if n <= u32::MAX {
        assert(is_number_field(text));
    }
}

/// Reading a clock text back gives the seconds it was written from, as long
/// as its hours fit in 32 bits.
pub proof fn lemma_clock_reads_back(total_seconds: nat)
    requires
        total_seconds / 3600 <= u32::MAX,
    ensures
        time_seconds(clock_text(total_seconds)) == total_seconds,
{
    let hours = total_seconds / 3600;
    let minutes = (total_seconds % 3600) / 60;
    let seconds = total_seconds % 60;
    lemma_two_digits(hours);
    lemma_two_digits(minutes);
    lemma_two_digits(seconds);
    lemma_three_fields(two_digits(hours), two_digits(minutes), two_digits(seconds));
}

/// Tells which format a name stands for.
pub fn time_format_of(name: &str) -> (format: TimeFormat)
    ensures
        format == format_named(name@),
{
    let chars = chars_of(name);
    let minute_clock: Vec<char> = vec!['M', 'M', ':', 'S', 'S'];
    let seconds: Vec<char> = vec!['s', 'e', 'c', 'o', 'n', 'd', 's'];
    if same_text(&chars, &minute_clock) {
        TimeFormat::MinuteClock
    } else if same_text(&chars, &seconds) {
        TimeFormat::Seconds
    } else {
        TimeFormat::Clock
    }
}

/// Appends the digit of a number below ten.
fn push_digit(text: &mut String, d: u64)
    requires
        d < 10,
    ensures
        final(text)@ == old(text)@.push(digit_of(d as int)),
{
    proof {
        reveal_strlit("0");
        reveal_strlit("1");
        reveal_strlit("2");
        reveal_strlit("3");
        reveal_strlit("4");
        reveal_strlit("5");
        reveal_strlit("6");
        reveal_strlit("7");
        reveal_strlit("8");
        reveal_strlit("9");
    }
    let ghost before = text@;
    if d == 0 {
        text.append("0");
    } else if d == 1 {
        text.append("1");
    } else if d == 2 {
        text.append("2");
    } else if d == 3 {
        text.append("3");
    } else if d == 4 {
        text.append("4");
    } else if d == 5 {
        text.append("5");
    } else if d == 6 {
        text.append("6");
    } else if d == 7 {
        text.append("7");
    } else if d == 8 {
        text.append("8");
    } else {
        text.append("9");
    }
    assert(text@ =~= before.push(digit_of(d as int)));
}

/// Appends a number in base ten, without leading zeros.
fn push_decimal(text: &mut String, n: u64)
    ensures
        final(text)@ == old(text)@ + decimal_text(n as nat),
    decreases n,
{
    let ghost before = text@;
    if n < 10 {
        push_digit(text, n);
        assert(text@ =~= before + decimal_text(n as nat));
    } else {
        push_decimal(text, n / 10);
        push_digit(text, n % 10);
        assert(text@ =~= before + decimal_text(n as nat));
    }
}

/// Appends a number in base ten with at least two digits.
fn push_two_digits(text: &mut String, n: u64)
    ensures
        final(text)@ == old(text)@ + two_digits(n as nat),
{
    let ghost before = text@;
    if n < 10 {
        push_digit(text, 0);
        push_digit(text, n);
        assert(text@ =~= before + two_digits(n as nat));
    } else {
        push_decimal(text, n);
    }
}

/// Appends a colon.
fn push_colon(text: &mut String)
    ensures
        final(text)@ == old(text)@ + seq![':'],
{
    proof {
        reveal_strlit(":");
    }
    let ghost before = text@;
    text.append(":");
    assert(text@ =~= before + seq![':']);
}

/// Writes seconds as hours, minutes and seconds.
pub fn format_clock(total_seconds: u64) -> (text: String)
    ensures
        text@ == clock_text(total_seconds as nat),
{
    let mut text = String::new();
    push_two_digits(&mut text, total_seconds / 3600);
    push_colon(&mut text);
    push_two_digits(&mut text, (total_seconds % 3600) / 60);
    push_colon(&mut text);
    push_two_digits(&mut text, total_seconds % 60);
    assert(text@ =~= clock_text(total_seconds as nat));
    text
}

/// Writes seconds as minutes and seconds.
pub fn format_minute_clock(total_seconds: u64) -> (text: String)
    ensures
        text@ == minute_clock_text(total_seconds as nat),
{
    let mut text = String::new();
    push_two_digits(&mut text, total_seconds / 60);
    push_colon(&mut text);
    push_two_digits(&mut text, total_seconds % 60);
    assert(text@ =~= minute_clock_text(total_seconds as nat));
    text
}

} // verus!
