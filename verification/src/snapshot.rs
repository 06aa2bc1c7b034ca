//! The roster of a meeting as an attendee list, to be saved and restored.

use crate::meeting::{roster_add, Meeting, MeetingView, Roster};
use crate::model::{find_category, EmployeeCategory};
use crate::storage::{attendee_views, AttendeeInfo, AttendeeView};
use vstd::prelude::*;

verus! {

/// Whether an attendee list holds exactly the categories of a roster, each of
/// them once and with its count.
pub open spec fn snapshot_of(list: Seq<AttendeeInfo>, roster: Roster) -> bool {
    &&& forall|i: int|
        0 <= i < list.len() ==> roster.contains_key((#[trigger] list[i])@.title)
            && roster[list[i]@.title].count == list[i]@.count
    &&& forall|i: int, j: int|
        0 <= i < j < list.len() ==> (#[trigger] list[i])@.title != (#[trigger] list[j])@.title
    &&& forall|title: Seq<char>| #[trigger]
        roster.contains_key(title) ==> exists|i: int|
            0 <= i < list.len() && (#[trigger] list[i])@.title == title
}

/// The salary of the first category of a list that has the title.
pub open spec fn titled_salary(categories: Seq<EmployeeCategory>, title: Seq<char>) -> Option<u64>
    decreases categories.len(),
{
    if categories.len() == 0 {
        None
    } else if categories[0]@.title == title {
        Some(categories[0]@.salary)
    } else {
        titled_salary(categories.subrange(1, categories.len() as int), title)
    }
}

/// The roster that the first `n` entries of an attendee list restore.
///
/// The entries are taken in their order, beginning with an empty roster.  An
/// entry joins the roster with the salary of the first category that has its
/// title.  An entry whose title no category has is passed over, and so is one
/// for which the counter of its category has no room.
pub open spec fn restored_roster(
    entries: Seq<AttendeeView>,
    categories: Seq<EmployeeCategory>,
    n: int,
) -> Roster
    decreases n,
{
    if n <= 0 {
        Map::empty()
    } else {
        let before = restored_roster(entries, categories, n - 1);
        let entry = entries[n - 1];
        match titled_salary(categories, entry.title) {
            Some(salary) => roster_add(before, entry.title, salary, entry.count),
            None => before,
        }
    }
}

/// The first category with a title is the one whose salary counts.
proof fn lemma_titled_salary(categories: Seq<EmployeeCategory>, title: Seq<char>, at: int)
    requires
        0 <= at <= categories.len(),
        forall|i: int| 0 <= i < at ==> (#[trigger] categories[i])@.title != title,
        at < categories.len() ==> categories[at]@.title == title,
    ensures
        titled_salary(categories, title) == if at < categories.len() {
            Some(categories[at]@.salary)
        } else {
            None
        },
    decreases categories.len(),
{
    if categories.len() > 0 && at > 0 {
        let rest = categories.subrange(1, categories.len() as int);
        assert(categories[0]@.title != title);
        assert forall|i: int| 0 <= i < at - 1 implies (#[trigger] rest[i])@.title != title by {
            assert(rest[i] == categories[i + 1]);
        }
        lemma_titled_salary(rest, title, at - 1);
    }
}

/// Lists the roster of a meeting as an attendee list: every category that is
/// present, once, with its count.  No order is promised.
pub fn snapshot(meeting: &Meeting) -> (list: Vec<AttendeeInfo>)
    requires
        meeting.wf(),
    ensures
        snapshot_of(list@, meeting@.roster),
{
    let listing = meeting.attendees();
    let mut list: Vec<AttendeeInfo> = Vec::new();
    let mut i: usize = 0;
    while i < listing.len()
        invariant
            i <= listing@.len(),
            list@.len() == i,
            forall|j: int|
                0 <= j < i ==> (#[trigger] list@[j])@.title == listing@[j].0@ && list@[j]@.count
                    == listing@[j].2,
        decreases listing@.len() - i,
    {
        list.push(AttendeeInfo { title: listing[i].0.clone(), count: listing[i].2 });
        i += 1;
    }
    proof {
        assert forall|title: Seq<char>| #[trigger]
            meeting@.roster.contains_key(title) implies exists|j: int|
            0 <= j < list@.len() && (#[trigger] list@[j])@.title == title by {
            let j = choose|j: int| 0 <= j < listing@.len() && (#[trigger] listing@[j]).0@ == title;
            assert(list@[j]@.title == title);
        }
    }
    list
}

/// Replaces the roster of a meeting by the one that an attendee list
/// restores.  The timer is left as it is.
pub fn restore(meeting: &mut Meeting, entries: &[AttendeeInfo], categories: &[EmployeeCategory])
    requires
        old(meeting).wf(),
    ensures
        final(meeting).wf(),
        final(meeting)@ == (MeetingView {
            roster: restored_roster(
                attendee_views(entries@),
                categories@,
                entries@.len() as int,
            ),
            ..old(meeting)@
        }),
{
    meeting.clear_attendees();
    let ghost views = attendee_views(entries@);
    let mut i: usize = 0;
    while i < entries.len()
        invariant
            i <= entries@.len(),
            views == attendee_views(entries@),
            meeting.wf(),
            meeting@ == (MeetingView {
                roster: restored_roster(views, categories@, i as int),
                ..old(meeting)@
            }),
        decreases entries@.len() - i,
    {
        let entry = &entries[i];
        assert(views[i as int] == entry@);
        match find_category(categories, entry.title.as_str()) {
            Some(at) => {
                proof {
                    assert forall|k: int| 0 <= k < at implies (#[trigger] categories@[k])@.title
                        != entry@.title by {
                        assert(categories@.subrange(0, at as int)[k] == categories@[k]);
                    }
                    lemma_titled_salary(categories@, entry@.title, at as int);
                }
                meeting.add_attendee(&categories[at], entry.count);
            },
            None => {
                proof {
                    lemma_titled_salary(categories@, entry@.title, categories@.len() as int);
                }
            },
        }
        i += 1;
    }
}

} // verus!
