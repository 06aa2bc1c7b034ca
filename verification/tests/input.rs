use meeting_cost_tracker::input::{
    parse_category_input, parse_count_input, parse_u64, split_at_colon,
};
use meeting_cost_tracker::model::trim;
use meeting_cost_tracker::EmployeeCategory;

const SAMPLES: [&str; 30] = [
    "",
    " ",
    "0",
    "7",
    "+7",
    "-7",
    "+",
    "++7",
    "7+",
    "007",
    "1 2",
    " 12",
    "12 ",
    "12a",
    "a12",
    "1.5",
    "1_000",
    "4294967295",
    "4294967296",
    "18446744073709551615",
    "18446744073709551616",
    "+18446744073709551615",
    "99999999999999999999999999",
    "184467440737095516150",
    "\u{663}",
    "\t 42 \n",
    "\u{a0}x y\u{2003}",
    "  ",
    "a:b:c",
    ":",
];

#[test]
fn numbers_are_read_as_the_standard_library_reads_them() {
    for text in SAMPLES {
        assert_eq!(parse_u64(text), text.parse::<u64>().ok(), "{:?}", text);
    }
}

#[test]
fn trimming_agrees_with_the_standard_library() {
    for text in SAMPLES {
        assert_eq!(trim(text), text.trim(), "{:?}", text);
    }
}

#[test]
fn splitting_agrees_with_the_standard_library() {
    for text in SAMPLES {
        assert_eq!(split_at_colon(text), text.split_once(':'), "{:?}", text);
    }
    assert_eq!(split_at_colon("a:b:c"), Some(("a", "b:c")));
    assert_eq!(split_at_colon(":"), Some(("", "")));
    assert_eq!(split_at_colon("é:ü"), Some(("é", "ü")));
    assert_eq!(split_at_colon("abc"), None);
}

#[test]
fn counts_are_read_like_numbers_of_thirty_two_bits() {
    for text in SAMPLES {
        let expected = if text.trim().is_empty() {
            Some(1)
        } else {
            text.trim().parse::<u32>().ok()
        };
        assert_eq!(parse_count_input(text), expected, "{:?}", text);
    }
    assert_eq!(parse_count_input(""), Some(1));
    assert_eq!(parse_count_input(" 12 "), Some(12));
    assert_eq!(parse_count_input("0"), Some(0));
    assert_eq!(parse_count_input("4294967295"), Some(u32::MAX));
    assert_eq!(parse_count_input("4294967296"), None);
    assert_eq!(parse_count_input("two"), None);
}

#[test]
fn categories_are_read_from_title_and_salary() {
    assert_eq!(
        parse_category_input("Engineer:120000"),
        Some(EmployeeCategory::new("Engineer", 120_000).unwrap())
    );
    assert_eq!(
        parse_category_input("  Staff Engineer : 90000 "),
        Some(EmployeeCategory::new("Staff Engineer", 90_000).unwrap())
    );
    assert_eq!(
        parse_category_input("A:+5"),
        Some(EmployeeCategory::new("A", 5).unwrap())
    );
    for input in [
        "",
        "Engineer",
        "Engineer 120000",
        ":120000",
        "  :120000",
        "Engineer:",
        "Engineer:0",
        "Engineer:-1",
        "Engineer:12k",
        "Engineer:1:2",
        "Engineer:18446744073709551616",
    ] {
        assert_eq!(parse_category_input(input), None, "{:?}", input);
    }
}
