//! Salary categories: a title and a yearly salary, validated on construction.

use vstd::prelude::*;

verus! {

/// Number of milliseconds in a nominal work year of 2,000 hours.
///
/// A salary divided by this constant is the cost of one attendee per
/// millisecond of meeting time.
pub const MILLIS_PER_WORK_YEAR: u64 = 7_200_000_000;

/// Whether `c` has the Unicode property `White_Space`.
pub open spec fn is_white_space(c: char) -> bool {
    let n = c as u32;
    ||| 0x09 <= n <= 0x0D
    ||| n == 0x20
    ||| n == 0x85
    ||| n == 0xA0
    ||| n == 0x1680
    ||| 0x2000 <= n <= 0x200A
    ||| n == 0x2028
    ||| n == 0x2029
    ||| n == 0x202F
    ||| n == 0x205F
    ||| n == 0x3000
}

/// Whether a text is empty or consists of white space only.
pub open spec fn is_blank(text: Seq<char>) -> bool {
    forall|i: int| 0 <= i < text.len() ==> is_white_space(#[trigger] text[i])
}

/// Tells whether `c` is a white-space character.
pub fn char_is_white_space(c: char) -> (b: bool)
    ensures
        b == is_white_space(c),
{
    let n: u32 = c as u32;
    (0x09 <= n && n <= 0x0D) || n == 0x20 || n == 0x85 || n == 0xA0 || n == 0x1680 || (0x2000 <= n
        && n <= 0x200A) || n == 0x2028 || n == 0x2029 || n == 0x202F || n == 0x205F || n == 0x3000
}

/// The text without the white space at its two ends.
pub open spec fn trimmed(text: Seq<char>) -> Seq<char>
    decreases text.len(),
{
    if text.len() == 0 {
        text
    } else if is_white_space(text[0]) {
        trimmed(text.subrange(1, text.len() as int))
    } else if is_white_space(text.last()) {
        trimmed(text.drop_last())
    } else {
        text
    }
}

/// What is left of a text between the white space at its two ends is the
/// text without that white space.
pub proof fn lemma_trimmed(text: Seq<char>, start: int, end: int)
    requires
        0 <= start <= end <= text.len(),
        forall|i: int| 0 <= i < start ==> is_white_space(#[trigger] text[i]),
        forall|i: int| end <= i < text.len() ==> is_white_space(#[trigger] text[i]),
        start < end ==> !is_white_space(text[start]) && !is_white_space(text[end - 1]),
    ensures
        trimmed(text) == text.subrange(start, end),
    decreases text.len(),
{
    if text.len() == 0 {
        assert(text.subrange(start, end) =~= text);
    } else if is_white_space(text[0]) {
        let rest = text.subrange(1, text.len() as int);
        assert forall|i: int| 0 <= i < rest.len() implies #[trigger] rest[i] == text[i + 1] by {}
        if start == 0 {
            assert(end == 0);
            lemma_trimmed(rest, 0, 0);
            assert(rest.subrange(0, 0) =~= text.subrange(0, 0));
        } else {
            lemma_trimmed(rest, start - 1, end - 1);
            assert(rest.subrange(start - 1, end - 1) =~= text.subrange(start, end));
        }
    } else if is_white_space(text.last()) {
        let rest = text.drop_last();
        assert(start == 0);
        assert(start < end);
        assert(end <= text.len() - 1);
        lemma_trimmed(rest, start, end);
        assert(rest.subrange(start, end) =~= text.subrange(start, end));
    } else {
        assert(start == 0);
        assert(end == text.len());
        assert(text.subrange(start, end) =~= text);
    }
}

/// Takes the white space off the two ends of a text.
pub fn trim(text: &str) -> (out: &str)
    ensures
        out@ == trimmed(text@),
{
    let len: usize = text.unicode_len();
    let mut start: usize = 0;
    while start < len
        invariant
            len == text@.len(),
            start <= len,
            forall|i: int| 0 <= i < start ==> is_white_space(#[trigger] text@[i]),
        ensures
            start <= len,
            forall|i: int| 0 <= i < start ==> is_white_space(#[trigger] text@[i]),
            start < len ==> !is_white_space(text@[start as int]),
        decreases len - start,
    {
        if !char_is_white_space(text.get_char(start)) {
            break ;
        }
        start += 1;
    }
    let mut end: usize = len;
    while end > start
        invariant
            len == text@.len(),
            start <= end <= len,
            start < len ==> !is_white_space(text@[start as int]),
            forall|i: int| end <= i < len ==> is_white_space(#[trigger] text@[i]),
        ensures
            start <= end <= len,
            forall|i: int| end <= i < len ==> is_white_space(#[trigger] text@[i]),
            start < end ==> !is_white_space(text@[end - 1]),
        decreases end,
    {
        if !char_is_white_space(text.get_char(end - 1)) {
            break ;
        }
        end -= 1;
    }
    proof {
        lemma_trimmed(text@, start as int, end as int);
    }
    text.substring_char(start, end)
}

/// A text is blank exactly where nothing is left of it without the white
/// space at its ends.
pub proof fn lemma_blank_is_trimmed_empty(text: Seq<char>)
    ensures
        is_blank(text) <==> trimmed(text).len() == 0,
    decreases text.len(),
{
    if text.len() > 0 {
        if is_white_space(text[0]) {
            let rest = text.subrange(1, text.len() as int);
            lemma_blank_is_trimmed_empty(rest);
            if is_blank(text) {
                assert forall|i: int| 0 <= i < rest.len() implies is_white_space(
                    #[trigger] rest[i],
                ) by {
                    assert(rest[i] == text[i + 1]);
                }
            }
            if is_blank(rest) {
                assert forall|i: int| 0 <= i < text.len() implies is_white_space(
                    #[trigger] text[i],
                ) by {
                    if i > 0 {
                        assert(text[i] == rest[i - 1]);
                    }
                }
            }
        } else if is_white_space(text.last()) {
            let rest = text.drop_last();
            lemma_blank_is_trimmed_empty(rest);
            assert(rest[0] == text[0]);
        }
    }
}

/// What is left of a text without the white space at its ends is empty, or
/// begins and ends with something other than white space.
pub proof fn lemma_trimmed_ends(text: Seq<char>)
    ensures
        trimmed(text).len() == 0 || (!is_white_space(trimmed(text)[0]) && !is_white_space(
            trimmed(text).last(),
        )),
    decreases text.len(),
{
    if text.len() > 0 {
        if is_white_space(text[0]) {
            lemma_trimmed_ends(text.subrange(1, text.len() as int));
        } else if is_white_space(text.last()) {
            lemma_trimmed_ends(text.drop_last());
        }
    }
}

/// Taking the white space off the ends of a text a second time changes
/// nothing, and what is left of a text that is not blank is not blank.
pub proof fn lemma_trimmed_twice(text: Seq<char>)
    ensures
        trimmed(trimmed(text)) == trimmed(text),
        is_blank(trimmed(text)) <==> is_blank(text),
{
    lemma_trimmed_ends(text);
    lemma_blank_is_trimmed_empty(text);
    lemma_blank_is_trimmed_empty(trimmed(text));
}

/// Why a category could not be created.
#[derive(Debug, Clone, Copy, PartialEq, Eq, Structural)]
pub enum EmployeeCategoryError {
    /// The salary must be greater than zero.
    InvalidSalary,
    /// The title must hold something other than white space.
    EmptyTitle,
}

impl EmployeeCategoryError {
    /// The text that describes the error to a user.
    pub fn message(&self) -> (text: String)
        ensures
            text@ == match *self {
                EmployeeCategoryError::InvalidSalary => "Salary must be greater than zero"@,
                EmployeeCategoryError::EmptyTitle => "Title must not be empty"@,
            },
    {
        match self {
            EmployeeCategoryError::InvalidSalary => "Salary must be greater than zero".to_owned(),
            EmployeeCategoryError::EmptyTitle => "Title must not be empty".to_owned(),
        }
    }
}

/// What a category holds: its title and its yearly salary.
pub struct CategoryView {
    pub title: Seq<char>,
    pub salary: u64,
}

/// An employee category such as "Engineer", with a yearly salary in dollars.
#[derive(Debug, Clone, PartialEq, Eq, Hash)]
pub struct EmployeeCategory {
    title: String,
    salary: u64,
}

impl View for EmployeeCategory {
    type V = CategoryView;

    closed spec fn view(&self) -> CategoryView {
        CategoryView { title: self.title@, salary: self.salary }
    }
}

/// The outcome that creating a category from `title` and `salary` must have:
/// a blank title is refused, then a salary of zero; otherwise the category
/// holds the title without the white space at its ends, and the salary.
pub open spec fn creation_outcome(title: Seq<char>, salary: u64) -> Result<
    CategoryView,
    EmployeeCategoryError,
> {
    if is_blank(title) {
        Err(EmployeeCategoryError::EmptyTitle)
    } else if salary == 0 {
        Err(EmployeeCategoryError::InvalidSalary)
    } else {
        Ok(CategoryView { title: trimmed(title), salary })
    }
}

/// What a valid category holds: a title that is not blank and has no white
/// space at its ends, and a positive salary.
pub open spec fn category_valid(view: CategoryView) -> bool {
    &&& !is_blank(view.title)
    &&& trimmed(view.title) == view.title
    &&& view.salary > 0
}

impl EmployeeCategory {
    /// A category is valid when its title is not blank and has no white
    /// space at its ends, and its salary is positive.
    pub open spec fn wf(&self) -> bool {
        category_valid(self@)
    }

    /// Creates a category after validating its fields.
    ///
    /// A blank title is refused with `EmptyTitle`; otherwise a salary of zero
    /// is refused with `InvalidSalary`; every other input yields the category
    /// with the given salary and the given title, without the white space at
    /// the ends of the title.
    pub fn new(title: &str, salary: u64) -> (result: Result<Self, EmployeeCategoryError>)
        ensures
            match result {
                Ok(category) => creation_outcome(title@, salary) == Ok::<
                    CategoryView,
                    EmployeeCategoryError,
                >(category@) && category.wf(),
                Err(error) => creation_outcome(title@, salary) == Err::<
                    CategoryView,
                    EmployeeCategoryError,
                >(error),
            },
    {
        let kept = trim(title);
        proof {
            lemma_blank_is_trimmed_empty(title@);
            lemma_trimmed_twice(title@);
        }
        if kept.is_empty() {
            return Err(EmployeeCategoryError::EmptyTitle);
        }
        if salary == 0 {
            return Err(EmployeeCategoryError::InvalidSalary);
        }
        Ok(Self { title: kept.to_owned(), salary })
    }

    /// The title of the category.
    pub fn title(&self) -> (title: &str)
        ensures
            title@ == self@.title,
    {
        self.title.as_str()
    }

    /// The yearly salary of the category, in dollars.
    pub fn salary(&self) -> (salary: u64)
        ensures
            salary == self@.salary,
    {
        self.salary
    }
}

/// Whether some category of a list has the title.
pub open spec fn has_title(list: Seq<EmployeeCategory>, title: Seq<char>) -> bool {
    exists|i: int| 0 <= i < list.len() && (#[trigger] list[i])@.title == title
}

/// Whether no two categories of a list have the same title.
pub open spec fn titles_unique(list: Seq<EmployeeCategory>) -> bool {
    forall|i: int, j: int|
        0 <= i < j < list.len() ==> (#[trigger] list[i])@.title != (#[trigger] list[j])@.title
}

/// The first `n` categories of a list without those that have the title, in
/// their order.
pub open spec fn without_title(list: Seq<EmployeeCategory>, title: Seq<char>, n: int) -> Seq<
    EmployeeCategory,
>
    decreases n,
{
    if n <= 0 {
        Seq::empty()
    } else if list[n - 1]@.title == title {
        without_title(list, title, n - 1)
    } else {
        without_title(list, title, n - 1).push(list[n - 1])
    }
}

/// Finds the first category of a list that has the title.
pub fn find_category(categories: &[EmployeeCategory], title: &str) -> (found: Option<usize>)
    ensures
        match found {
            Some(i) => i < categories@.len() && categories@[i as int]@.title == title@
                && !has_title(categories@.subrange(0, i as int), title@),
            None => !has_title(categories@, title@),
        },
{
    let key: String = title.to_owned();
    let mut i: usize = 0;
    while i < categories.len()
        invariant
            i <= categories@.len(),
            key@ == title@,
            forall|j: int| 0 <= j < i ==> (#[trigger] categories@[j])@.title != title@,
        decreases categories@.len() - i,
    {
        if categories[i].title == key {
            assert forall|j: int| 0 <= j < i implies (#[trigger] categories@.subrange(
                0,
                i as int,
            )[j])@.title != title@ by {
                assert(categories@.subrange(0, i as int)[j] == categories@[j]);
            }
            return Some(i);
        }
        i += 1;
    }
    None
}

/// Adds a category to a list unless the list has one of the same title.
///
/// Tells whether the category was added.  A list without repeated titles
/// stays one.
pub fn add_category(categories: &mut Vec<EmployeeCategory>, category: EmployeeCategory) -> (added:
    bool)
    ensures
        added == !has_title(old(categories)@, category@.title),
        final(categories)@ == if added {
            old(categories)@.push(category)
        } else {
            old(categories)@
        },
        titles_unique(old(categories)@) ==> titles_unique(final(categories)@),
{
    match find_category(categories.as_slice(), category.title()) {
        Some(_) => false,
        None => {
            categories.push(category);
            proof {
                let before = old(categories)@;
                let after = categories@;
                if titles_unique(before) {
                    assert forall|i: int, j: int| 0 <= i < j < after.len() implies (
                    #[trigger] after[i])@.title != (#[trigger] after[j])@.title by {
                        if j < before.len() {
                            assert(before[i]@.title != before[j]@.title);
                        } else {
                            assert(before[i]@.title != category@.title);
                        }
                    }
                }
            }
            true
        },
    }
}

/// Removes from a list every category that has the title, and keeps the
/// others in their order.
pub fn remove_category(categories: &mut Vec<EmployeeCategory>, title: &str)
    ensures
        final(categories)@ == without_title(old(categories)@, title@, old(categories)@.len() as int),
        !has_title(final(categories)@, title@),
{
    let ghost before = categories@;
    let key: String = title.to_owned();
    let mut kept: usize = 0;
    let ghost mut seen: int = 0;
    while kept < categories.len()
        invariant
            key@ == title@,
            kept <= categories@.len(),
            0 <= seen <= before.len(),
            categories@.len() - kept == before.len() - seen,
            categories@.subrange(0, kept as int) == without_title(before, title@, seen),
            forall|j: int|
                kept <= j < categories@.len() ==> #[trigger] categories@[j] == before[j - kept
                    + seen],
            forall|j: int| 0 <= j < kept ==> (#[trigger] categories@[j])@.title != title@,
        decreases categories@.len() - kept,
    {
        let ghost current = categories@;
        if categories[kept].title == key {
            categories.remove(kept);
            proof {
                assert(categories@.subrange(0, kept as int) =~= current.subrange(0, kept as int));
                seen = seen + 1;
            }
        } else {
            proof {
                assert(current.subrange(0, kept + 1) =~= current.subrange(0, kept as int).push(
                    current[kept as int],
                ));
                seen = seen + 1;
            }
            kept += 1;
        }
    }
    proof {
        assert(categories@.subrange(0, kept as int) =~= categories@);
        assert forall|i: int| 0 <= i < categories@.len() implies (#[trigger] categories@[i])@.title
            != title@ by {}
    }
}

} // verus!
