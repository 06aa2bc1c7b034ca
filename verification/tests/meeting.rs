use meeting_cost_tracker::{format_duration, EmployeeCategory, Meeting, MILLIS_PER_WORK_YEAR};
use std::time::{Duration, Instant};

fn sample_category() -> EmployeeCategory {
    EmployeeCategory::new("dev", 120_000).unwrap()
}

/// Lets at least `span` pass on the monotonic clock.
fn wait(span: Duration) {
    let begin = Instant::now();
    while begin.elapsed() < span {
        std::hint::spin_loop();
    }
}

fn sorted(meeting: &Meeting) -> Vec<(String, u64, u32)> {
    let mut list = meeting.attendees();
    list.sort();
    list
}

#[test]
fn duration_formatting() {
    assert_eq!(format_duration(Duration::from_secs(0)), "00:00:00");
    assert_eq!(format_duration(Duration::from_secs(3661)), "01:01:01");
}

#[test]
fn duration_formatting_edges() {
    assert_eq!(format_duration(Duration::from_millis(59_999)), "00:00:59");
    assert_eq!(format_duration(Duration::from_secs(3599)), "00:59:59");
    assert_eq!(format_duration(Duration::from_secs(36_000)), "10:00:00");
    assert_eq!(format_duration(Duration::from_secs(360_000 + 62)), "100:01:02");
    assert_eq!(format_duration(Duration::MAX), "5124095576030431:00:15");
}

#[test]
fn new_starts_empty() {
    let meeting = Meeting::new();
    assert!(!meeting.is_running());
    assert_eq!(meeting.attendees().iter().count(), 0);
    assert_eq!(meeting.duration(), Duration::ZERO);
}

#[test]
fn default_equivalent_to_new() {
    let a = Meeting::new();
    let b = Meeting::default();
    assert_eq!(a.is_running(), b.is_running());
    assert_eq!(a.attendees().iter().count(), b.attendees().iter().count());
}

#[test]
fn add_and_remove_attendees_respects_counts() {
    let cat = sample_category();
    let mut meeting = Meeting::new();
    meeting.add_attendee(&cat, 2);
    meeting.add_attendee(&cat, 1);
    assert_eq!(meeting.attendees().iter().next().unwrap().2, 3);
    meeting.remove_attendee(cat.title(), 1);
    assert_eq!(meeting.attendees().iter().next().unwrap().2, 2);
    meeting.remove_attendee(cat.title(), 5);
    assert!(meeting.attendees().iter().next().is_none());
}

#[test]
fn start_stop_and_duration() {
    let mut meeting = Meeting::new();
    meeting.start();
    wait(Duration::from_millis(10));
    meeting.start(); // should have no effect
    wait(Duration::from_millis(10));
    meeting.stop();
    let first = meeting.duration();
    wait(Duration::from_millis(10));
    meeting.stop();
    assert_eq!(meeting.duration(), first);
    assert!(first >= Duration::from_millis(20));
}

#[test]
fn current_duration_only_when_running() {
    let mut meeting = Meeting::new();
    assert_eq!(meeting.current_duration(), Duration::ZERO);
    meeting.start();
    wait(Duration::from_millis(5));
    assert!(meeting.current_duration() > Duration::ZERO);
}

#[test]
fn attendee_count_works() {
    let cat = sample_category();
    let mut meeting = Meeting::new();
    assert_eq!(meeting.attendee_count(cat.title()), None);
    meeting.add_attendee(&cat, 2);
    assert_eq!(meeting.attendee_count(cat.title()), Some(2));
}

#[test]
fn clear_attendees_leaves_timing() {
    let cat = sample_category();
    let mut meeting = Meeting::new();
    meeting.add_attendee(&cat, 1);
    meeting.start();
    wait(Duration::from_millis(5));
    meeting.stop();
    let duration = meeting.duration();
    meeting.clear_attendees();
    assert_eq!(meeting.attendees().iter().count(), 0);
    assert_eq!(meeting.duration(), duration);
}

#[test]
fn test_add_and_remove_attendees() {
    let cat = EmployeeCategory::new("QA", 80_000).unwrap();
    let mut meeting = Meeting::new();
    meeting.add_attendee(&cat, 3);
    assert_eq!(meeting.attendees().iter().next().unwrap().2, 3);
    meeting.remove_attendee(cat.title(), 2);
    assert_eq!(meeting.attendees().iter().next().unwrap().2, 1);
    meeting.remove_attendee(cat.title(), 1);
    assert!(meeting.attendees().iter().next().is_none());
}

#[test]
fn test_clear_attendees() {
    let cat = EmployeeCategory::new("Ops", 70_000).unwrap();
    let mut meeting = Meeting::new();
    meeting.add_attendee(&cat, 1);
    meeting.clear_attendees();
    assert_eq!(meeting.attendees().iter().count(), 0);
}

#[test]
fn test_attendee_count_helper() {
    let cat = EmployeeCategory::new("Dev", 60_000).unwrap();
    let mut meeting = Meeting::new();
    meeting.add_attendee(&cat, 4);
    assert_eq!(meeting.attendee_count(cat.title()), Some(4));
}

#[test]
fn two_additions_make_one_entry() {
    let cat = EmployeeCategory::new("A", 50_000).unwrap();
    let mut meeting = Meeting::new();
    meeting.add_attendee(&cat, 2);
    meeting.add_attendee(&cat, 1);
    assert_eq!(meeting.attendees(), vec![("A".to_string(), 50_000, 3)]);
}

#[test]
fn first_salary_is_kept() {
    let first = EmployeeCategory::new("A", 50_000).unwrap();
    let later = EmployeeCategory::new("A", 90_000).unwrap();
    let mut meeting = Meeting::new();
    meeting.add_attendee(&first, 1);
    meeting.add_attendee(&later, 4);
    assert_eq!(meeting.attendees(), vec![("A".to_string(), 50_000, 5)]);
}

#[test]
fn adding_nobody_changes_nothing() {
    let cat = sample_category();
    let mut meeting = Meeting::new();
    meeting.add_attendee(&cat, 0);
    assert!(meeting.attendees().is_empty());
    assert_eq!(meeting.attendee_count("dev"), None);
    meeting.add_attendee(&cat, 2);
    meeting.add_attendee(&cat, 0);
    assert_eq!(meeting.attendee_count("dev"), Some(2));
}

#[test]
fn add_then_remove_restores_the_roster() {
    let a = EmployeeCategory::new("A", 10).unwrap();
    let b = EmployeeCategory::new("B", 20).unwrap();
    let mut meeting = Meeting::new();
    meeting.add_attendee(&a, 2);
    let before = sorted(&meeting);
    meeting.add_attendee(&a, 7);
    meeting.remove_attendee("A", 7);
    assert_eq!(sorted(&meeting), before);
    meeting.add_attendee(&b, 3);
    meeting.remove_attendee("B", 3);
    assert_eq!(sorted(&meeting), before);
}

#[test]
fn removing_more_than_present_deletes_the_entry() {
    let a = EmployeeCategory::new("A", 10).unwrap();
    let b = EmployeeCategory::new("B", 20).unwrap();
    let mut meeting = Meeting::new();
    meeting.add_attendee(&a, 2);
    meeting.add_attendee(&b, 1);
    meeting.remove_attendee("A", u32::MAX);
    assert_eq!(meeting.attendees(), vec![("B".to_string(), 20, 1)]);
}

#[test]
fn removing_an_absent_category_changes_nothing() {
    let a = EmployeeCategory::new("A", 10).unwrap();
    let mut meeting = Meeting::new();
    meeting.add_attendee(&a, 2);
    meeting.remove_attendee("B", 1);
    meeting.remove_attendee("A", 0);
    assert_eq!(meeting.attendees(), vec![("A".to_string(), 10, 2)]);
}

#[test]
fn several_categories_are_listed_once_each() {
    let mut meeting = Meeting::new();
    for (title, salary, count) in [("A", 1, 1), ("B", 2, 2), ("C", 3, 3), ("B", 9, 5)] {
        meeting.add_attendee(&EmployeeCategory::new(title, salary).unwrap(), count);
    }
    meeting.remove_attendee("A", 1);
    assert_eq!(
        sorted(&meeting),
        vec![("B".to_string(), 2, 7), ("C".to_string(), 3, 3)]
    );
}

#[test]
fn stopping_after_a_given_run_accumulates_it() {
    let mut meeting = Meeting::new();
    meeting.start();
    assert!(meeting.is_running());
    meeting.stop_after(Duration::from_millis(500));
    assert!(!meeting.is_running());
    assert_eq!(meeting.duration(), Duration::from_millis(500));
    meeting.start();
    meeting.stop_after(Duration::from_millis(250));
    assert_eq!(meeting.duration(), Duration::from_millis(750));
}

#[test]
fn stopping_a_stopped_meeting_changes_nothing() {
    let mut meeting = Meeting::new();
    meeting.stop_after(Duration::from_secs(5));
    assert_eq!(meeting.duration(), Duration::ZERO);
    meeting.start();
    meeting.stop_after(Duration::from_secs(1));
    meeting.stop_after(Duration::from_secs(1));
    meeting.stop();
    assert_eq!(meeting.duration(), Duration::from_secs(1));
}

#[test]
fn duration_after_counts_the_run_only_while_running() {
    let mut meeting = Meeting::new();
    assert_eq!(meeting.duration_after(Duration::from_secs(3)), Duration::ZERO);
    meeting.start();
    meeting.stop_after(Duration::from_secs(2));
    assert_eq!(
        meeting.duration_after(Duration::from_secs(3)),
        Duration::from_secs(2)
    );
    meeting.start();
    assert_eq!(
        meeting.duration_after(Duration::from_secs(3)),
        Duration::from_secs(5)
    );
}

#[test]
fn accumulated_time_stops_at_the_longest_duration() {
    let mut meeting = Meeting::new();
    meeting.start();
    meeting.stop_after(Duration::MAX);
    meeting.start();
    assert_eq!(meeting.duration_after(Duration::from_secs(1)), Duration::MAX);
    meeting.stop_after(Duration::from_secs(1));
    assert_eq!(meeting.duration(), Duration::MAX);
}

#[test]
fn duration_never_goes_back_while_running() {
    let mut meeting = Meeting::new();
    meeting.start();
    let mut last = meeting.duration();
    for _ in 0..100 {
        let next = meeting.duration();
        assert!(next >= last);
        last = next;
    }
    meeting.stop();
    let stopped = meeting.duration();
    assert!(stopped >= last);
    wait(Duration::from_millis(2));
    assert_eq!(meeting.duration(), stopped);
}

#[test]
fn reset_returns_to_the_initial_state() {
    let cat = sample_category();
    let mut meeting = Meeting::new();
    meeting.add_attendee(&cat, 1);
    meeting.start();
    wait(Duration::from_millis(5));
    meeting.stop();
    meeting.start();
    meeting.reset();
    assert_eq!(meeting.attendees().iter().count(), 0);
    assert!(!meeting.is_running());
    assert_eq!(meeting.duration(), Duration::ZERO);
    assert_eq!(meeting.current_duration(), Duration::ZERO);
}

#[test]
fn engineers_for_half_a_second() {
    let cat = EmployeeCategory::new("Engineer", 120_000).unwrap();
    let mut meeting = Meeting::new();
    meeting.add_attendee(&cat, 3);
    meeting.start();
    meeting.stop_after(Duration::from_millis(500));
    assert_eq!(meeting.duration().as_millis(), 500);
    assert_eq!(meeting.attendees(), vec![("Engineer".to_string(), 120_000, 3)]);
}

#[test]
fn cost_of_engineers_for_half_a_second() {
    let cat = EmployeeCategory::new("Engineer", 120_000).unwrap();
    let mut meeting = Meeting::new();
    meeting.add_attendee(&cat, 3);
    meeting.start();
    meeting.stop_after(Duration::from_millis(500));
    assert_eq!(meeting.yearly_pay(), Some(360_000));
    assert_eq!(meeting.cost_numerator(), Some(180_000_000));
    // 180,000,000 / 7,200,000,000 dollars are two and a half cents.
    assert_eq!(180_000_000 * 40, MILLIS_PER_WORK_YEAR);
}

#[test]
fn cost_is_zero_when_new_and_after_reset() {
    let mut meeting = Meeting::new();
    assert_eq!(meeting.cost_numerator(), Some(0));
    assert_eq!(Meeting::default().cost_numerator(), Some(0));
    meeting.add_attendee(&sample_category(), 4);
    meeting.start();
    meeting.stop_after(Duration::from_secs(90));
    assert_eq!(meeting.cost_numerator(), Some(120_000 * 4 * 90_000));
    meeting.reset();
    assert_eq!(meeting.cost_numerator(), Some(0));
    assert_eq!(meeting.yearly_pay(), Some(0));
}

#[test]
fn cost_sums_over_categories_and_counts_whole_milliseconds() {
    let mut meeting = Meeting::new();
    meeting.add_attendee(&EmployeeCategory::new("A", 7).unwrap(), 2);
    meeting.add_attendee(&EmployeeCategory::new("B", 11).unwrap(), 3);
    assert_eq!(meeting.yearly_pay(), Some(7 * 2 + 11 * 3));
    assert_eq!(meeting.cost_numerator_after(Duration::from_secs(1)), Some(0));
    meeting.start();
    assert_eq!(
        meeting.cost_numerator_after(Duration::from_micros(2_999)),
        Some(47 * 2)
    );
    meeting.stop_after(Duration::from_nanos(999_999));
    assert_eq!(meeting.cost_numerator(), Some(0));
    meeting.start();
    assert_eq!(
        meeting.cost_numerator_after(Duration::from_nanos(1)),
        Some(47)
    );
}

#[test]
fn cost_beyond_the_largest_number_is_reported() {
    let mut meeting = Meeting::new();
    meeting.add_attendee(&EmployeeCategory::new("A", u64::MAX).unwrap(), u32::MAX);
    assert_eq!(
        meeting.yearly_pay(),
        Some(u128::from(u64::MAX) * u128::from(u32::MAX))
    );
    meeting.start();
    assert_eq!(meeting.cost_numerator_after(Duration::MAX), None);
    assert_eq!(
        meeting.cost_numerator_after(Duration::from_millis(2)),
        Some(u128::from(u64::MAX) * u128::from(u32::MAX) * 2)
    );
}

/// The cost in dollars: the exact numerator over the work year.
fn total_cost(meeting: &Meeting) -> f64 {
    meeting.cost_numerator().unwrap() as f64 / MILLIS_PER_WORK_YEAR as f64
}

#[test]
fn total_cost_accumulates() {
    let cat = sample_category();
    let mut meeting = Meeting::new();
    meeting.add_attendee(&cat, 1);
    meeting.start();
    wait(Duration::from_millis(10));
    meeting.stop();
    assert!(total_cost(&meeting) > 0.0);
}

#[test]
fn reset_clears_state() {
    let cat = sample_category();
    let mut meeting = Meeting::new();
    meeting.add_attendee(&cat, 1);
    meeting.start();
    wait(Duration::from_millis(5));
    meeting.stop();
    meeting.reset();
    assert_eq!(meeting.attendees().iter().count(), 0);
    assert!(!meeting.is_running());
    assert_eq!(total_cost(&meeting), 0.0);
}

#[test]
fn test_meeting_cost_accumulation() {
    let cat = EmployeeCategory::new("Dev", 120_000).unwrap();
    let mut meeting = Meeting::new();
    meeting.add_attendee(&cat, 2);
    meeting.start();
    wait(Duration::from_millis(50));
    meeting.stop();

    let cost = total_cost(&meeting);
    assert!(cost > 0.0);
}

#[test]
fn test_meeting_reset() {
    let cat = EmployeeCategory::new("Analyst", 90_000).unwrap();
    let mut meeting = Meeting::new();
    meeting.add_attendee(&cat, 1);
    meeting.start();
    wait(Duration::from_millis(20));
    meeting.stop();
    meeting.reset();

    assert_eq!(total_cost(&meeting), 0.0);
}

#[test]
fn engineers_cost_two_and_a_half_cents() {
    let cat = EmployeeCategory::new("Engineer", 120_000).unwrap();
    let mut meeting = Meeting::new();
    meeting.add_attendee(&cat, 3);
    meeting.start();
    meeting.stop_after(Duration::from_millis(500));
    assert!((total_cost(&meeting) - 0.025).abs() < 1e-12);
    assert_eq!(total_cost(&Meeting::new()), 0.0);
}

#[test]
fn adding_more_than_the_counter_holds_changes_nothing() {
    let cat = sample_category();
    let mut meeting = Meeting::new();
    meeting.add_attendee(&cat, u32::MAX - 1);
    meeting.add_attendee(&cat, 2);
    assert_eq!(meeting.attendee_count("dev"), Some(u32::MAX - 1));
    meeting.add_attendee(&cat, u32::MAX);
    assert_eq!(meeting.attendees(), vec![("dev".to_string(), 120_000, u32::MAX - 1)]);
    meeting.add_attendee(&cat, 1);
    assert_eq!(meeting.attendee_count("dev"), Some(u32::MAX));
    meeting.add_attendee(&cat, 1);
    assert_eq!(meeting.attendee_count("dev"), Some(u32::MAX));
    meeting.add_attendee(&EmployeeCategory::new("ops", 5).unwrap(), u32::MAX);
    assert_eq!(meeting.attendee_count("ops"), Some(u32::MAX));
}
