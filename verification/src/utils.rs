//! Text for people.

use vstd::prelude::*;

verus! {

/// `String::push` appends the given character to the end of the string.
pub assume_specification[ String::push ](s: &mut String, c: char)
    ensures
        final(s)@ == old(s)@.push(c),
;

/// The character of a decimal digit.
pub open spec fn digit_char(d: int) -> char {
    if d == 0 {
        '0'
    } else if d == 1 {
        '1'
    } else if d == 2 {
        '2'
    } else if d == 3 {
        '3'
    } else if d == 4 {
        '4'
    } else if d == 5 {
        '5'
    } else if d == 6 {
        '6'
    } else if d == 7 {
        '7'
    } else if d == 8 {
        '8'
    } else {
        '9'
    }
}

/// A number in decimal digits, without leading zeros.
pub open spec fn decimal(n: nat) -> Seq<char>
    decreases n,
{
    if n < 10 {
        seq![digit_char(n as int)]
    } else {
        decimal(n / 10).push(digit_char((n % 10) as int))
    }
}

/// A number below 100 in two decimal digits.
pub open spec fn two_digits(n: nat) -> Seq<char> {
    seq![digit_char((n / 10) as int), digit_char((n % 10) as int)]
}

/// A span of time in seconds as hours, minutes and seconds, the hours left
/// out where there are none: `h:mm:ss` or `m:ss`.
pub open spec fn duration_text(total_seconds: nat) -> Seq<char> {
    let hours = total_seconds / 3600;
    let minutes = (total_seconds % 3600) / 60;
    let seconds = total_seconds % 60;
    if hours > 0 {
        decimal(hours) + seq![':'] + two_digits(minutes) + seq![':'] + two_digits(seconds)
    } else {
        decimal(minutes) + seq![':'] + two_digits(seconds)
    }
}

/// The character of a decimal digit.
fn digit(d: u64) -> (c: char)
    requires
        d < 10,
    ensures
        c == digit_char(d as int),
{
    match d {
        0 => '0',
        1 => '1',
        2 => '2',
        3 => '3',
        4 => '4',
        5 => '5',
        6 => '6',
        7 => '7',
        8 => '8',
        _ => '9',
    }
}

/// Append a number in decimal digits to a text.
fn push_decimal(text: &mut String, n: u64)
    ensures
        final(text)@ == old(text)@ + decimal(n as nat),
    decreases n,
{
    if n < 10 {
        text.push(digit(n));
        assert(text@ =~= old(text)@ + decimal(n as nat));
    } else {
        push_decimal(text, n / 10);
        text.push(digit(n % 10));
        assert(text@ =~= old(text)@ + decimal(n as nat));
    }
}

/// Append a number below 100 in two decimal digits to a text.
fn push_two_digits(text: &mut String, n: u64)
    requires
        n < 100,
    ensures
        final(text)@ == old(text)@ + two_digits(n as nat),
{
    text.push(digit(n / 10));
    text.push(digit(n % 10));
    assert(text@ =~= old(text)@ + two_digits(n as nat));
}

/// Format a span of time in seconds as `h:mm:ss`, or as `m:ss` where it is
/// less than an hour.
pub fn format_duration(total_seconds: u64) -> (text: String)
    ensures
        text@ == duration_text(total_seconds as nat),
{
    let hours = total_seconds / 3600;
    let minutes = (total_seconds % 3600) / 60;
    let seconds = total_seconds % 60;
    let mut text = String::new();
    if hours > 0 {
        push_decimal(&mut text, hours);
        text.push(':');
        push_two_digits(&mut text, minutes);
        text.push(':');
        push_two_digits(&mut text, seconds);
        assert(text@ =~= duration_text(total_seconds as nat));
    } else {
        push_decimal(&mut text, minutes);
        text.push(':');
        push_two_digits(&mut text, seconds);
        assert(text@ =~= duration_text(total_seconds as nat));
    }
    text
}

} // verus!
