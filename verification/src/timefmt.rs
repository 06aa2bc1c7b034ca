//! Durations as clock text, `hh:mm:ss`.

use crate::clock::{duration_nanos, whole_seconds};
use std::time::Duration;
use vstd::prelude::*;
use vstd::string::StringExecFns;

verus! {

/// The character that stands for a decimal digit.
pub open spec fn digit(d: nat) -> char {
    if d == 0 {
        '0'
    } else if d == 1 {
        '1'
    } else if d == 2 {
        '2'
    } else if d == 3 {
        '3'
    } else if d == 4 {
        '4'
    } else if d == 5 {
        '5'
    } else if d == 6 {
        '6'
    } else if d == 7 {
        '7'
    } else if d == 8 {
        '8'
    } else {
        '9'
    }
}

/// A number in decimal, without leading zeros.
pub open spec fn decimal(n: nat) -> Seq<char>
    decreases n,
{
    if n < 10 {
        seq![digit(n)]
    } else {
        decimal(n / 10).push(digit(n % 10))
    }
}

/// A number in decimal, with a leading zero where it has one digit only.
pub open spec fn two_digit_text(n: nat) -> Seq<char> {
    if n < 10 {
        seq!['0', digit(n)]
    } else {
        decimal(n)
    }
}

/// A number of seconds as hours, minutes and seconds, each of at least two
/// digits, with colons between them.
pub open spec fn clock_text(seconds: nat) -> Seq<char> {
    two_digit_text(seconds / 3600) + seq![':'] + two_digit_text((seconds % 3600) / 60) + seq![':']
        + two_digit_text(seconds % 60)
}

/// The standard formatter with the pattern `{}`: the number in decimal,
/// without leading zeros.
#[verifier::external_body]
pub(crate) fn decimal_text(n: u64) -> (text: String)
    ensures
        text@ == decimal(n as nat),
{
    format!("{n}")
}

/// Writes a number in decimal, with a leading zero where it has one digit
/// only.
fn two_digits(n: u64) -> (text: String)
    ensures
        text@ == two_digit_text(n as nat),
{
    if n < 10 {
        proof {
            reveal_strlit("0");
            assert("0"@ + decimal(n as nat) =~= seq!['0', digit(n as nat)]);
        }
        let mut text = "0".to_owned();
        text.append(decimal_text(n).as_str());
        text
    } else {
        decimal_text(n)
    }
}

/// Writes a duration as `hh:mm:ss`, dropping what is less than a second.
pub fn format_duration(d: Duration) -> (text: String)
    ensures
        text@ == clock_text(duration_nanos(d) / 1_000_000_000),
{
    let secs: u64 = whole_seconds(d);
    let hours: u64 = secs / 3600;
    let minutes: u64 = (secs % 3600) / 60;
    let seconds: u64 = secs % 60;
    proof {
        reveal_strlit(":");
        assert(":"@ =~= seq![':']);
    }
    let mut text = two_digits(hours);
    text.append(":");
    text.append(two_digits(minutes).as_str());
    text.append(":");
    text.append(two_digits(seconds).as_str());
    text
}

} // verus!
