//! The lines of text that the interactive program shows.

use crate::clock::duration_nanos;
use crate::model::EmployeeCategory;
use crate::timefmt::{clock_text, decimal, decimal_text, format_duration};
use std::time::Duration;
use vstd::prelude::*;
use vstd::string::StringExecFns;

verus! {

/// The status line: whether the meeting runs, and how long it has been
/// active.
pub open spec fn status_text(running: bool, seconds: nat) -> Seq<char> {
    (if running {
        "[Running] Duration: "@
    } else {
        "[Stopped] Duration: "@
    }) + clock_text(seconds)
}

/// The line of a category: its title, followed by its salary where salaries
/// are shown.
pub open spec fn category_text(title: Seq<char>, salary: u64, show_salaries: bool) -> Seq<char> {
    if show_salaries {
        title + ": $"@ + decimal(salary as nat)
    } else {
        title
    }
}

/// The line of the attendees of a category: its title and their count.
pub open spec fn attendee_text(title: Seq<char>, count: u32) -> Seq<char> {
    title + " x "@ + decimal(count as nat)
}

/// Writes the status line of a meeting that has been active for `active`.
pub fn status_line(running: bool, active: Duration) -> (line: String)
    ensures
        line@ == status_text(running, duration_nanos(active) / 1_000_000_000),
{
    let mut line = if running {
        "[Running] Duration: ".to_owned()
    } else {
        "[Stopped] Duration: ".to_owned()
    };
    line.append(format_duration(active).as_str());
    line
}

/// Writes the line of a category.
pub fn category_line(category: &EmployeeCategory, show_salaries: bool) -> (line: String)
    ensures
        line@ == category_text(category@.title, category@.salary, show_salaries),
{
    let mut line = category.title().to_owned();
    if show_salaries {
        line.append(": $");
        line.append(decimal_text(category.salary()).as_str());
    }
    line
}

/// Writes the line of the attendees of a category.
pub fn attendee_line(title: &str, count: u32) -> (line: String)
    ensures
        line@ == attendee_text(title@, count),
{
    let mut line = title.to_owned();
    line.append(" x ");
    line.append(decimal_text(count as u64).as_str());
    line
}

} // verus!
