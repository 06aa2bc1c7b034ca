use meeting_cost_tracker::snapshot::{restore, snapshot};
use meeting_cost_tracker::{
    load_attendees, save_attendees, AttendeeInfo, EmployeeCategory, Meeting,
};
use std::time::Duration;

fn category(title: &str, salary: u64) -> EmployeeCategory {
    EmployeeCategory::new(title, salary).unwrap()
}

fn info(title: &str, count: u32) -> AttendeeInfo {
    AttendeeInfo {
        title: title.to_string(),
        count,
    }
}

fn sorted(meeting: &Meeting) -> Vec<(String, u64, u32)> {
    let mut list = meeting.attendees();
    list.sort();
    list
}

#[test]
fn snapshot_lists_titles_and_counts() {
    let mut meeting = Meeting::new();
    assert_eq!(snapshot(&meeting), vec![]);
    meeting.add_attendee(&category("A", 10), 2);
    meeting.add_attendee(&category("B", 20), 1);
    meeting.add_attendee(&category("A", 30), 3);
    let mut list = snapshot(&meeting);
    list.sort_by(|a, b| a.title.cmp(&b.title));
    assert_eq!(list, vec![info("A", 5), info("B", 1)]);
}

#[test]
fn restore_replaces_the_roster_and_keeps_the_timer() {
    let categories = vec![category("A", 10), category("B", 20), category("A", 99)];
    let mut meeting = Meeting::new();
    meeting.add_attendee(&category("Old", 1), 1);
    meeting.start();
    meeting.stop_after(Duration::from_secs(3));
    meeting.start();
    restore(
        &mut meeting,
        &[info("B", 2), info("Unknown", 4), info("A", 1), info("B", 3), info("A", 0)],
        &categories,
    );
    assert_eq!(
        sorted(&meeting),
        vec![("A".to_string(), 10, 1), ("B".to_string(), 20, 5)]
    );
    assert!(meeting.is_running());
    assert_eq!(
        meeting.duration_after(Duration::from_secs(1)),
        Duration::from_secs(4)
    );
}

#[test]
fn restore_passes_over_what_the_counter_cannot_hold() {
    let categories = vec![category("A", 10)];
    let mut meeting = Meeting::new();
    restore(
        &mut meeting,
        &[info("A", u32::MAX - 1), info("A", 2), info("A", 1)],
        &categories,
    );
    assert_eq!(meeting.attendee_count("A"), Some(u32::MAX));
}

#[test]
fn restore_from_nothing_empties_the_roster() {
    let mut meeting = Meeting::new();
    meeting.add_attendee(&category("A", 10), 2);
    restore(&mut meeting, &[], &[category("A", 10)]);
    assert!(meeting.attendees().is_empty());
    restore(&mut meeting, &[info("A", 1)], &[]);
    assert!(meeting.attendees().is_empty());
}

#[test]
fn a_saved_roster_is_restored() {
    let categories = vec![category("Dev", 100), category("Ops", 200)];
    let mut meeting = Meeting::new();
    meeting.add_attendee(&categories[0], 3);
    meeting.add_attendee(&categories[1], 1);
    let saved = save_attendees(&snapshot(&meeting)).unwrap();
    let mut other = Meeting::new();
    restore(&mut other, &load_attendees(Some(&saved)).unwrap(), &categories);
    assert_eq!(sorted(&other), sorted(&meeting));
}

#[test]
fn attendees_are_added_only_where_the_counter_has_room() {
    let cat = category("A", 10);
    let mut meeting = Meeting::new();
    assert!(meeting.try_add_attendee(&cat, u32::MAX));
    assert!(!meeting.try_add_attendee(&cat, 1));
    assert_eq!(meeting.attendee_count("A"), Some(u32::MAX));
    assert!(meeting.try_add_attendee(&cat, 0));
    meeting.remove_attendee("A", 1);
    assert!(meeting.try_add_attendee(&cat, 1));
    assert!(meeting.try_add_attendee(&category("B", 1), u32::MAX));
    assert_eq!(meeting.attendee_count("B"), Some(u32::MAX));
}
