//! What a user types: a category as `Title:Salary`, and a count of attendees.

use crate::model::{creation_outcome, trim, trimmed, CategoryView, EmployeeCategory};
use vstd::prelude::*;

verus! {

/// The place of the first colon of a text, or the length of the text where it
/// has none.
pub open spec fn colon_index(text: Seq<char>) -> int
    decreases text.len(),
{
    if text.len() == 0 {
        0
    } else if text[0] == ':' {
        0
    } else {
        1 + colon_index(text.subrange(1, text.len() as int))
    }
}

/// Whether a character is one of the digits `0` to `9`.
pub open spec fn is_digit(c: char) -> bool {
    48 <= c as u32 <= 57
}

/// The number that a text of digits stands for in decimal.
pub open spec fn digits_value(digits: Seq<char>) -> nat
    decreases digits.len(),
{
    if digits.len() == 0 {
        0
    } else {
        digits_value(digits.drop_last()) * 10 + (digits.last() as u32 - 48) as nat
    }
}

/// Whether a text holds digits only.
pub open spec fn all_digits(text: Seq<char>) -> bool {
    forall|i: int| 0 <= i < text.len() ==> is_digit(#[trigger] text[i])
}

/// A text without the plus sign that it begins with, if it begins with one.
pub open spec fn unsigned_digits(text: Seq<char>) -> Seq<char> {
    if text.len() > 0 && text[0] == '+' {
        text.subrange(1, text.len() as int)
    } else {
        text
    }
}

/// The number that a text stands for: one digit or more, after a plus sign
/// or none, and nothing else.
pub open spec fn unsigned_value(text: Seq<char>) -> Option<nat> {
    let digits = unsigned_digits(text);
    if digits.len() > 0 && all_digits(digits) {
        Some(digits_value(digits))
    } else {
        None
    }
}

/// The number that a text stands for, where a `u64` can hold it.
pub open spec fn decimal_u64(text: Seq<char>) -> Option<u64> {
    match unsigned_value(text) {
        Some(number) => if number <= u64::MAX {
            Some(number as u64)
        } else {
            None
        },
        None => None,
    }
}

/// The category that an input of the form `Title:Salary` stands for.
///
/// The title is what stands before the first colon and the salary what
/// stands after it, both without the white space around them.  There is no
/// category where the input has no colon, the salary is no number that a
/// `u64` can hold, or title and salary do not make a valid category.
pub open spec fn category_input(input: Seq<char>) -> Option<CategoryView> {
    let colon = colon_index(input);
    if colon >= input.len() {
        None
    } else {
        match decimal_u64(trimmed(input.subrange(colon + 1, input.len() as int))) {
            Some(salary) => match creation_outcome(input.subrange(0, colon), salary) {
                Ok(view) => Some(view),
                Err(_) => None,
            },
            None => None,
        }
    }
}

/// The count that an input stands for: one where the input is blank, else
/// the number it holds between the white space at its ends, where a `u32`
/// can hold it.
pub open spec fn count_input(input: Seq<char>) -> Option<u32> {
    if trimmed(input).len() == 0 {
        Some(1)
    } else {
        match decimal_u64(trimmed(input)) {
            Some(number) => if number <= u32::MAX {
                Some(number as u32)
            } else {
                None
            },
            None => None,
        }
    }
}

/// The first colon of a text lies within the text or at its end, and no
/// colon stands before it.
proof fn lemma_colon_index(text: Seq<char>)
    ensures
        0 <= colon_index(text) <= text.len(),
        colon_index(text) < text.len() ==> text[colon_index(text)] == ':',
        forall|i: int| 0 <= i < colon_index(text) ==> #[trigger] text[i] != ':',
    decreases text.len(),
{
    if text.len() > 0 && text[0] != ':' {
        let rest = text.subrange(1, text.len() as int);
        lemma_colon_index(rest);
        assert forall|i: int| 0 <= i < colon_index(text) implies #[trigger] text[i] != ':' by {
            if i > 0 {
                assert(rest[i - 1] == text[i]);
            }
        }
    }
}

/// A place at which a colon stands, with none before it, is the place of the
/// first colon.
proof fn lemma_colon_found(text: Seq<char>, at: int)
    requires
        0 <= at <= text.len(),
        at < text.len() ==> text[at] == ':',
        forall|i: int| 0 <= i < at ==> #[trigger] text[i] != ':',
    ensures
        colon_index(text) == at,
{
    lemma_colon_index(text);
    let found = colon_index(text);
    if found < at {
        assert(text[found] != ':');
    } else if at < found {
        assert(text[at] != ':');
    }
}

/// Splits a text at its first colon into what stands before it and what
/// stands after it.
pub fn split_at_colon(text: &str) -> (parts: Option<(&str, &str)>)
    ensures
        match parts {
            Some((head, tail)) => colon_index(text@) < text@.len() && head@ == text@.subrange(
                0,
                colon_index(text@),
            ) && tail@ == text@.subrange(colon_index(text@) + 1, text@.len() as int),
            None => colon_index(text@) >= text@.len(),
        },
{
    let len: usize = text.unicode_len();
    let mut i: usize = 0;
    while i < len
        invariant
            len == text@.len(),
            i <= len,
            forall|j: int| 0 <= j < i ==> #[trigger] text@[j] != ':',
        decreases len - i,
    {
        if text.get_char(i) == ':' {
            proof {
                lemma_colon_found(text@, i as int);
            }
            return Some((text.substring_char(0, i), text.substring_char(i + 1, len)));
        }
        i += 1;
    }
    proof {
        lemma_colon_found(text@, len as int);
    }
    None
}

/// A text of digits stands for no less than what its first digits stand for.
proof fn lemma_digits_value_grows(digits: Seq<char>, k: int)
    requires
        0 <= k <= digits.len(),
        all_digits(digits),
    ensures
        digits_value(digits.subrange(0, k)) <= digits_value(digits),
    decreases digits.len(),
{
    if k == digits.len() {
        assert(digits.subrange(0, k) =~= digits);
    } else {
        let front = digits.drop_last();
        lemma_digits_value_grows(front, k);
        assert(front.subrange(0, k) =~= digits.subrange(0, k));
    }
}

/// Reads a number in decimal: one digit or more, after a plus sign or none.
///
/// There is no number where the text holds anything else, or stands for more
/// than a `u64` can hold.
pub fn parse_u64(text: &str) -> (number: Option<u64>)
    ensures
        number == decimal_u64(text@),
{
    let len: usize = text.unicode_len();
    let mut first: usize = 0;
    if len > 0 && text.get_char(0) == '+' {
        first = 1;
    }
    if first == len {
        return None;
    }
    let ghost digits = unsigned_digits(text@);
    assert(digits =~= text@.subrange(first as int, len as int));
    let mut value: u64 = 0;
    let mut i: usize = first;
    while i < len
        invariant
            len == text@.len(),
            first <= i <= len,
            first < len,
            digits == unsigned_digits(text@),
            digits == text@.subrange(first as int, len as int),
            forall|j: int| 0 <= j < i - first ==> is_digit(#[trigger] digits[j]),
            value == digits_value(digits.subrange(0, i - first)),
        decreases len - i,
    {
        let c: char = text.get_char(i);
        let code: u32 = c as u32;
        assert(digits[i - first] == c);
        if code < 48 || code > 57 {
            assert(!is_digit(digits[i - first]));
            return None;
        }
        let digit: u64 = (code - 48) as u64;
        proof {
            let more = digits.subrange(0, i - first + 1);
            assert(more.drop_last() =~= digits.subrange(0, i - first));
            assert(more.last() == c);
            assert(digits_value(more) == value * 10 + digit);
            if all_digits(digits) {
                lemma_digits_value_grows(digits, i - first + 1);
            }
        }
        match value.checked_mul(10) {
            Some(tens) => match tens.checked_add(digit) {
                Some(sum) => {
                    value = sum;
                },
                None => {
                    return None;
                },
            },
            None => {
                return None;
            },
        }
        i += 1;
    }
    assert(digits.subrange(0, len - first) =~= digits);
    Some(value)
}

/// Reads a category from an input of the form `Title:Salary`.
pub fn parse_category_input(input: &str) -> (result: Option<EmployeeCategory>)
    ensures
        match result {
            Some(category) => category_input(input@) == Some(category@) && category.wf(),
            None => category_input(input@) is None,
        },
{
    match split_at_colon(input) {
        Some((title, salary)) => match parse_u64(trim(salary)) {
            Some(salary) => match EmployeeCategory::new(title, salary) {
                Ok(category) => Some(category),
                Err(_) => None,
            },
            None => None,
        },
        None => None,
    }
}

/// Reads a count of attendees from an input; a blank input stands for one.
pub fn parse_count_input(input: &str) -> (result: Option<u32>)
    ensures
        result == count_input(input@),
{
    let text = trim(input);
    if text.unicode_len() == 0 {
        return Some(1);
    }
    match parse_u64(text) {
        Some(number) => if number <= 0xFFFF_FFFF {
            Some(number as u32)
        } else {
            None
        },
        None => None,
    }
}

} // verus!
