use meeting_cost_tracker::lines::{attendee_line, category_line, status_line};
use meeting_cost_tracker::EmployeeCategory;
use std::time::Duration;

#[test]
fn status_line_tells_state_and_time() {
    assert_eq!(
        status_line(true, Duration::from_secs(3661)),
        "[Running] Duration: 01:01:01"
    );
    assert_eq!(
        status_line(false, Duration::from_millis(999)),
        "[Stopped] Duration: 00:00:00"
    );
}

#[test]
fn category_line_shows_the_salary_on_demand() {
    let cat = EmployeeCategory::new("Engineer", 120_000).unwrap();
    assert_eq!(category_line(&cat, false), "Engineer");
    assert_eq!(category_line(&cat, true), "Engineer: $120000");
    let top = EmployeeCategory::new("Top", u64::MAX).unwrap();
    assert_eq!(category_line(&top, true), "Top: $18446744073709551615");
}

#[test]
fn attendee_line_shows_title_and_count() {
    assert_eq!(attendee_line("Dev", 3), "Dev x 3");
    assert_eq!(attendee_line("", 0), " x 0");
    assert_eq!(attendee_line("Ops", u32::MAX), "Ops x 4294967295");
}
