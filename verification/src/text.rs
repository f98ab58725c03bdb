//! How durations are written out: decimal numbers, and the `Hh Mm Ss` form.

use vstd::prelude::*;
use vstd::string::StringExecFns;

verus! {

/// The character that writes the digit `d`.
pub open spec fn digit(d: int) -> char {
    if d == 0 {
        '0'
    } else if d == 1 {
        '1'
    } else if d == 2 {
        '2'
    } else if d == 3 {
        '3'
    } else if d == 4 {
        '4'
    } else if d == 5 {
        '5'
    } else if d == 6 {
        '6'
    } else if d == 7 {
        '7'
    } else if d == 8 {
        '8'
    } else {
        '9'
    }
}

/// The decimal digits of `n`, most significant first, without leading
/// zeros; zero is written `0`.
pub open spec fn decimal(n: nat) -> Seq<char>
    decreases n,
{
    if n < 10 {
        seq![digit(n as int)]
    } else {
        decimal(n / 10).push(digit((n % 10) as int))
    }
}

/// A duration of `seconds` written as `Hh Mm Ss`: all whole hours, the
/// minutes within the hour and the seconds within the minute.
pub open spec fn duration_text(seconds: nat) -> Seq<char> {
    decimal(seconds / 3600) + seq!['h', ' '] + decimal((seconds / 60) % 60) + seq!['m', ' ']
        + decimal(seconds % 60) + seq!['s']
}

/// One line of a report: the label, a colon, and the duration.
pub open spec fn line_text(record: Seq<char>, seconds: nat) -> Seq<char> {
    record + seq![':', ' '] + duration_text(seconds)
}

/// The text of one digit.
fn digit_str(d: u8) -> (text: &'static str)
    requires
        d < 10,
    ensures
        text@ == seq![digit(d as int)],
{
    proof {
        reveal_strlit("0");
        reveal_strlit("1");
        reveal_strlit("2");
        reveal_strlit("3");
        reveal_strlit("4");
        reveal_strlit("5");
        reveal_strlit("6");
        reveal_strlit("7");
        reveal_strlit("8");
        reveal_strlit("9");
    }
    if d == 0 {
        "0"
    } else if d == 1 {
        "1"
    } else if d == 2 {
        "2"
    } else if d == 3 {
        "3"
    } else if d == 4 {
        "4"
    } else if d == 5 {
        "5"
    } else if d == 6 {
        "6"
    } else if d == 7 {
        "7"
    } else if d == 8 {
        "8"
    } else {
        "9"
    }
}

/// Appends the decimal digits of `n` to `out`.
fn push_decimal(out: &mut String, n: u128)
    ensures
        final(out)@ == old(out)@ + decimal(n as nat),
    decreases n,
{
    if n >= 10 {
        push_decimal(out, n / 10);
    }
    let last: u8 = (n % 10) as u8;
    out.append(digit_str(last));
}

/// Writes a duration of `seconds` as `Hh Mm Ss`.
pub fn format_duration(seconds: u128) -> (text: String)
    ensures
        text@ == duration_text(seconds as nat),
{
    proof {
        reveal_strlit("h ");
        reveal_strlit("m ");
        reveal_strlit("s");
    }
    let mut text = String::new();
    push_decimal(&mut text, seconds / 3600);
    text.append("h ");
    push_decimal(&mut text, (seconds / 60) % 60);
    text.append("m ");
    push_decimal(&mut text, seconds % 60);
    text.append("s");
    text
}

/// Writes one line of a report: `record`, a colon, and the duration.
pub fn format_line(record: &str, seconds: u128) -> (text: String)
    ensures
        text@ == line_text(record@, seconds as nat),
{
    proof {
        reveal_strlit(": ");
    }
    let mut text = record.to_owned();
    text.append(": ");
    let duration = format_duration(seconds);
    text.append(duration.as_str());
    text
}

/// A duration of no seconds is written `0h 0m 0s`.
pub proof fn lemma_zero_duration()
    ensures
        duration_text(0) == seq!['0', 'h', ' ', '0', 'm', ' ', '0', 's'],
{
}

} // verus!
