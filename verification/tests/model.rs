use meeting_cost_tracker::model::{
    add_category, char_is_white_space, find_category, remove_category, trim,
};
use meeting_cost_tracker::{EmployeeCategory, EmployeeCategoryError, MILLIS_PER_WORK_YEAR};

#[test]
fn new_validates_input() {
    assert!(EmployeeCategory::new("", 100).is_err());
    assert!(EmployeeCategory::new("dev", 0).is_err());
    let cat = EmployeeCategory::new("dev", 1).unwrap();
    assert_eq!(cat.title(), "dev");
    assert_eq!(cat.salary(), 1);
}

#[test]
fn accessors_work() {
    let cat = EmployeeCategory::new("manager", 10_000).unwrap();
    assert_eq!(cat.title(), "manager");
    assert_eq!(cat.salary(), 10_000);
}

#[test]
fn test_employee_category_creation() {
    let valid = EmployeeCategory::new("Engineer", 100_000);
    assert!(valid.is_ok());

    let empty_title = EmployeeCategory::new("", 100_000);
    assert!(empty_title.is_err());

    let zero_salary = EmployeeCategory::new("Manager", 0);
    assert!(zero_salary.is_err());
}

#[test]
fn empty_title_is_reported_as_empty_title() {
    assert_eq!(
        EmployeeCategory::new("", 100).unwrap_err(),
        EmployeeCategoryError::EmptyTitle
    );
    assert_eq!(
        EmployeeCategory::new(" \t\n\u{a0}\u{3000}", 100).unwrap_err(),
        EmployeeCategoryError::EmptyTitle
    );
}

#[test]
fn zero_salary_is_reported_as_invalid_salary() {
    assert_eq!(
        EmployeeCategory::new("dev", 0).unwrap_err(),
        EmployeeCategoryError::InvalidSalary
    );
}

#[test]
fn empty_title_wins_over_zero_salary() {
    assert_eq!(
        EmployeeCategory::new("   ", 0).unwrap_err(),
        EmployeeCategoryError::EmptyTitle
    );
}

#[test]
fn title_is_stored_without_the_white_space_at_its_ends() {
    let cat = EmployeeCategory::new("  dev  ", 1).unwrap();
    assert_eq!(cat.title(), "dev");
    assert_eq!(cat.salary(), 1);
    let cat = EmployeeCategory::new("\t Staff  Engineer\u{a0}\n", u64::MAX).unwrap();
    assert_eq!(cat.title(), "Staff  Engineer");
    assert_eq!(cat.salary(), u64::MAX);
    assert_eq!(cat, EmployeeCategory::new("Staff  Engineer", u64::MAX).unwrap());
}

#[test]
fn white_space_agrees_with_the_standard_library() {
    let mut code: u32 = 0;
    while code <= 0x10FFFF {
        if let Some(c) = char::from_u32(code) {
            assert_eq!(char_is_white_space(c), c.is_whitespace(), "U+{:04X}", code);
        }
        code += 1;
    }
}

#[test]
fn blank_titles_are_those_that_trim_to_nothing() {
    for text in ["", " ", "\t \r\n", "a", " a ", "\u{2003}\u{2028}", "\u{200b}"] {
        assert_eq!(trim(text), text.trim(), "{:?}", text);
        assert_eq!(
            EmployeeCategory::new(text, 1).is_err(),
            text.trim().is_empty(),
            "{:?}",
            text
        );
    }
}

#[test]
fn error_messages() {
    assert_eq!(
        EmployeeCategoryError::InvalidSalary.message(),
        "Salary must be greater than zero"
    );
    assert_eq!(
        EmployeeCategoryError::EmptyTitle.message(),
        "Title must not be empty"
    );
}

#[test]
fn work_year_is_two_thousand_hours() {
    assert_eq!(MILLIS_PER_WORK_YEAR, 2000 * 60 * 60 * 1000);
}

#[test]
fn equal_categories_compare_equal() {
    let a = EmployeeCategory::new("A", 1).unwrap();
    assert_eq!(a.clone(), a);
    assert_ne!(EmployeeCategory::new("A", 2).unwrap(), a);
}

fn category(title: &str, salary: u64) -> EmployeeCategory {
    EmployeeCategory::new(title, salary).unwrap()
}

#[test]
fn a_title_is_added_to_a_list_once() {
    let mut list = Vec::new();
    assert!(add_category(&mut list, category("A", 1)));
    assert!(add_category(&mut list, category("B", 2)));
    assert!(!add_category(&mut list, category("A", 3)));
    assert_eq!(list, vec![category("A", 1), category("B", 2)]);
}

#[test]
fn the_first_category_of_a_title_is_found() {
    let list = vec![category("A", 1), category("B", 2), category("B", 3)];
    assert_eq!(find_category(&list, "A"), Some(0));
    assert_eq!(find_category(&list, "B"), Some(1));
    assert_eq!(find_category(&list, "C"), None);
    assert_eq!(find_category(&[], "A"), None);
}

#[test]
fn every_category_of_a_title_is_removed() {
    let mut list = vec![
        category("B", 1),
        category("A", 2),
        category("B", 3),
        category("C", 4),
        category("B", 5),
    ];
    remove_category(&mut list, "B");
    assert_eq!(list, vec![category("A", 2), category("C", 4)]);
    remove_category(&mut list, "Z");
    assert_eq!(list, vec![category("A", 2), category("C", 4)]);
    remove_category(&mut list, "A");
    remove_category(&mut list, "C");
    assert!(list.is_empty());
    remove_category(&mut list, "C");
    assert!(list.is_empty());
}

#[test]
fn a_title_with_white_space_around_it_is_a_known_title() {
    let mut list = vec![category("A", 1)];
    assert!(!add_category(&mut list, category(" A ", 2)));
    assert_eq!(find_category(&list, "A"), Some(0));
    assert_eq!(list, vec![category("A", 1)]);
}

#[test]
fn trimming_takes_white_space_off_both_ends_only() {
    assert_eq!(trim("  a b  "), "a b");
    assert_eq!(trim("\u{3000}x"), "x");
    assert_eq!(trim("x"), "x");
    assert_eq!(trim(" \t"), "");
    assert_eq!(trim(""), "");
}
