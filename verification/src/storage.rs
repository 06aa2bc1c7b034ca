//! Categories and attendee lists as TOML documents.
//!
//! A category file holds one array, `categories`, of tables with a `title`
//! and a `salary`.  An attendee file holds one array, `attendees`, of tables
//! with a `title` and a `count`.  Reading and writing the files themselves is
//! left to the caller: the functions here turn the text of a file into values
//! and values into the text of a file.

use crate::document::{
    doc_value, field, find_field, node_of_value, parse_error, parse_value, parsed_text,
    value_doc, value_of_node, write_error, write_value, written_text, Doc, Node,
};
use crate::model::{category_valid, is_blank, trimmed, CategoryView, EmployeeCategory};
use vstd::prelude::*;

verus! {

/// Why a file could not be read or written, `std::io::Error`.
#[verifier::external_type_specification]
#[verifier::external_body]
pub struct ExIoError(std::io::Error);

/// Why categories or attendees could not be loaded or saved.
#[derive(Debug)]
pub enum StorageError {
    /// The file could not be read or written.
    Io(std::io::Error),
    /// The text is no TOML document, or not one of the expected shape.
    Toml(toml::de::Error),
    /// The values could not be written as TOML.
    TomlWrite(toml::ser::Error),
}

/// A saved entry of an attendee list: the title of a category and how many
/// attendees of it were present.
#[derive(Debug, Clone, PartialEq, Eq)]
pub struct AttendeeInfo {
    /// Title of the attendee category.
    pub title: String,
    /// Number of attendees in this category.
    pub count: u32,
}

/// What a saved entry holds.
pub struct AttendeeView {
    pub title: Seq<char>,
    pub count: u32,
}

impl View for AttendeeInfo {
    type V = AttendeeView;

    open spec fn view(&self) -> AttendeeView {
        AttendeeView { title: self.title@, count: self.count }
    }
}

/// What each category of a list holds.
pub open spec fn category_views(list: Seq<EmployeeCategory>) -> Seq<CategoryView> {
    Seq::new(list.len(), |i: int| list[i]@)
}

/// What each entry of an attendee list holds.
pub open spec fn attendee_views(list: Seq<AttendeeInfo>) -> Seq<AttendeeView> {
    Seq::new(list.len(), |i: int| list[i]@)
}

/// The category that a table of a document stands for: it has a text under
/// `title` that is not blank and a positive integer under `salary`.  The
/// category holds the title without the white space at its ends.
pub open spec fn decode_category(doc: Doc) -> Option<CategoryView> {
    match doc {
        Doc::Table(entries) => match (field(entries, "title"@), field(entries, "salary"@)) {
            (Some(Doc::Text(title)), Some(Doc::Integer(salary))) => if 0 < salary <= u64::MAX
                && !is_blank(title) {
                Some(CategoryView { title: trimmed(title), salary: salary as u64 })
            } else {
                None
            },
            _ => None,
        },
        _ => None,
    }
}

/// The attendee entry that a table of a document stands for: it has a text
/// under `title` and, under `count`, an integer that a `u32` can hold.
pub open spec fn decode_attendee(doc: Doc) -> Option<AttendeeView> {
    match doc {
        Doc::Table(entries) => match (field(entries, "title"@), field(entries, "count"@)) {
            (Some(Doc::Text(title)), Some(Doc::Integer(count))) => if 0 <= count <= u32::MAX {
                Some(AttendeeView { title, count: count as u32 })
            } else {
                None
            },
            _ => None,
        },
        _ => None,
    }
}

/// The array that a document holds under `key`, where it is a table that
/// holds one.
pub open spec fn records(doc: Doc, key: Seq<char>) -> Option<Seq<Doc>> {
    match doc {
        Doc::Table(entries) => match field(entries, key) {
            Some(Doc::List(items)) => Some(items),
            _ => None,
        },
        _ => None,
    }
}

/// The categories that a document holds: every item of its array
/// `categories` stands for a category.
pub open spec fn decode_categories(doc: Doc) -> Option<Seq<CategoryView>> {
    match records(doc, "categories"@) {
        Some(items) => if forall|i: int|
            0 <= i < items.len() ==> decode_category(#[trigger] items[i]) is Some {
            Some(Seq::new(items.len(), |i: int| decode_category(items[i]).unwrap()))
        } else {
            None
        },
        None => None,
    }
}

/// The attendee list that a document holds: every item of its array
/// `attendees` stands for an entry.
pub open spec fn decode_attendees(doc: Doc) -> Option<Seq<AttendeeView>> {
    match records(doc, "attendees"@) {
        Some(items) => if forall|i: int|
            0 <= i < items.len() ==> decode_attendee(#[trigger] items[i]) is Some {
            Some(Seq::new(items.len(), |i: int| decode_attendee(items[i]).unwrap()))
        } else {
            None
        },
        None => None,
    }
}

/// Reads a category from a table of a document.
pub fn category_from_node(node: &Node) -> (result: Option<EmployeeCategory>)
    ensures
        match result {
            Some(category) => decode_category(node@) == Some(category@) && category.wf(),
            None => decode_category(node@) is None,
        },
{
    match node {
        Node::Table(entries) => {
            let title = find_field(entries, "title");
            let salary = find_field(entries, "salary");
            match (title, salary) {
                (Some(Node::Text(title)), Some(Node::Integer(salary))) => {
                    if *salary <= 0 {
                        return None;
                    }
                    match EmployeeCategory::new(title.as_str(), *salary as u64) {
                        Ok(category) => Some(category),
                        Err(_) => None,
                    }
                },
                _ => None,
            }
        },
        _ => None,
    }
}

/// Reads an attendee entry from a table of a document.
pub fn attendee_from_node(node: &Node) -> (result: Option<AttendeeInfo>)
    ensures
        match result {
            Some(info) => decode_attendee(node@) == Some(info@),
            None => decode_attendee(node@) is None,
        },
{
    match node {
        Node::Table(entries) => {
            let title = find_field(entries, "title");
            let count = find_field(entries, "count");
            match (title, count) {
                (Some(Node::Text(title)), Some(Node::Integer(count))) => {
                    if *count < 0 || *count > 0xFFFF_FFFF {
                        return None;
                    }
                    Some(AttendeeInfo { title: title.clone(), count: *count as u32 })
                },
                _ => None,
            }
        },
        _ => None,
    }
}

/// Finds the array that a document holds under `key`.
fn find_records<'a>(doc: &'a Node, key: &str) -> (found: Option<&'a Vec<Node>>)
    ensures
        match found {
            Some(items) => records(doc@, key@) == Some(Node::List(*items)@->List_0),
            None => records(doc@, key@) is None,
        },
{
    match doc {
        Node::Table(entries) => match find_field(entries, key) {
            Some(Node::List(items)) => Some(items),
            _ => None,
        },
        _ => None,
    }
}

/// Reads the categories that a document holds.
///
/// The result is `None` exactly where the document is not a table with an
/// array `categories` of valid categories.
pub fn categories_from_document(doc: &Node) -> (result: Option<Vec<EmployeeCategory>>)
    ensures
        match result {
            Some(list) => decode_categories(doc@) == Some(category_views(list@)) && forall|i: int|
                0 <= i < list@.len() ==> (#[trigger] list@[i]).wf(),
            None => decode_categories(doc@) is None,
        },
{
    match find_records(doc, "categories") {
        Some(items) => {
            let ghost docs = Node::List(*items)@->List_0;
            let mut list: Vec<EmployeeCategory> = Vec::new();
            let mut i: usize = 0;
            while i < items.len()
                invariant
                    i <= items@.len(),
                    docs == Node::List(*items)@->List_0,
                    docs.len() == items@.len(),
                    list@.len() == i,
                    records(doc@, "categories"@) == Some(docs),
                    forall|j: int|
                        0 <= j < i ==> decode_category(#[trigger] docs[j]) == Some(list@[j]@),
                    forall|j: int| 0 <= j < i ==> (#[trigger] list@[j]).wf(),
                decreases items@.len() - i,
            {
                match category_from_node(&items[i]) {
                    Some(category) => list.push(category),
                    None => {
                        assert(decode_category(docs[i as int]) is None);
                        return None;
                    },
                }
                i += 1;
            }
            assert(category_views(list@) =~= Seq::new(
                docs.len(),
                |i: int| decode_category(docs[i]).unwrap(),
            ));
            Some(list)
        },
        None => None,
    }
}

/// Reads the attendee list that a document holds.
///
/// The result is `None` exactly where the document is not a table with an
/// array `attendees` of attendee entries.
pub fn attendees_from_document(doc: &Node) -> (result: Option<Vec<AttendeeInfo>>)
    ensures
        match result {
            Some(list) => decode_attendees(doc@) == Some(attendee_views(list@)),
            None => decode_attendees(doc@) is None,
        },
{
    match find_records(doc, "attendees") {
        Some(items) => {
            let ghost docs = Node::List(*items)@->List_0;
            let mut list: Vec<AttendeeInfo> = Vec::new();
            let mut i: usize = 0;
            while i < items.len()
                invariant
                    i <= items@.len(),
                    docs == Node::List(*items)@->List_0,
                    docs.len() == items@.len(),
                    list@.len() == i,
                    records(doc@, "attendees"@) == Some(docs),
                    forall|j: int|
                        0 <= j < i ==> decode_attendee(#[trigger] docs[j]) == Some(list@[j]@),
                decreases items@.len() - i,
            {
                match attendee_from_node(&items[i]) {
                    Some(info) => list.push(info),
                    None => {
                        assert(decode_attendee(docs[i as int]) is None);
                        return None;
                    },
                }
                i += 1;
            }
            assert(attendee_views(list@) =~= Seq::new(
                docs.len(),
                |i: int| decode_attendee(docs[i]).unwrap(),
            ));
            Some(list)
        },
        None => None,
    }
}

/// The table that stands for a category in a document.
pub open spec fn category_doc(category: CategoryView) -> Doc {
    Doc::Table(
        seq![
            ("title"@, Doc::Text(category.title)),
            ("salary"@, Doc::Integer(category.salary as int)),
        ],
    )
}

/// The table that stands for an attendee entry in a document.
pub open spec fn attendee_doc(info: AttendeeView) -> Doc {
    Doc::Table(
        seq![("title"@, Doc::Text(info.title)), ("count"@, Doc::Integer(info.count as int))],
    )
}

/// The document that holds a list of categories: a table whose one entry,
/// `categories`, is the array of their tables, in the order of the list.
pub open spec fn categories_doc(list: Seq<CategoryView>) -> Doc {
    Doc::Table(
        seq![("categories"@, Doc::List(Seq::new(list.len(), |i: int| category_doc(list[i]))))],
    )
}

/// The document that holds an attendee list: a table whose one entry,
/// `attendees`, is the array of their tables, in the order of the list.
pub open spec fn attendees_doc(list: Seq<AttendeeView>) -> Doc {
    Doc::Table(
        seq![("attendees"@, Doc::List(Seq::new(list.len(), |i: int| attendee_doc(list[i]))))],
    )
}

/// Whether every salary of the list is one that a TOML integer can hold.
pub open spec fn salaries_fit(list: Seq<CategoryView>) -> bool {
    forall|i: int| 0 <= i < list.len() ==> (#[trigger] list[i]).salary <= i64::MAX
}

/// A table of two entries.
fn pair_table(first_key: &str, first: Node, second_key: &str, second: Node) -> (table: Node)
    ensures
        table@ == Doc::Table(seq![(first_key@, first@), (second_key@, second@)]),
{
    let mut entries: Vec<(String, Node)> = Vec::new();
    entries.push((first_key.to_owned(), first));
    entries.push((second_key.to_owned(), second));
    let table = Node::Table(entries);
    assert(table@->Table_0 =~= seq![(first_key@, first@), (second_key@, second@)]);
    table
}

/// A table whose one entry is an array.
fn list_table(key: &str, items: Vec<Node>) -> (table: Node)
    ensures
        table@ == Doc::Table(seq![(key@, Node::List(items)@)]),
{
    let mut entries: Vec<(String, Node)> = Vec::new();
    entries.push((key.to_owned(), Node::List(items)));
    let table = Node::Table(entries);
    assert(table@->Table_0 =~= seq![(key@, Node::List(items)@)]);
    table
}

/// Builds the document that holds a list of categories.
///
/// There is none exactly where a salary is greater than a TOML integer can
/// hold.
pub fn document_from_categories(categories: &[EmployeeCategory]) -> (result: Option<Node>)
    ensures
        match result {
            Some(doc) => salaries_fit(category_views(categories@)) && doc@ == categories_doc(
                category_views(categories@),
            ),
            None => !salaries_fit(category_views(categories@)),
        },
{
    let ghost views = category_views(categories@);
    let mut items: Vec<Node> = Vec::new();
    let mut i: usize = 0;
    while i < categories.len()
        invariant
            i <= categories@.len(),
            views == category_views(categories@),
            items@.len() == i,
            forall|j: int| 0 <= j < i ==> (#[trigger] items@[j])@ == category_doc(views[j]),
            forall|j: int| 0 <= j < i ==> (#[trigger] views[j]).salary <= i64::MAX,
        decreases categories@.len() - i,
    {
        let category = &categories[i];
        let salary: u64 = category.salary();
        if salary > 0x7FFF_FFFF_FFFF_FFFF {
            assert(views[i as int].salary > i64::MAX);
            return None;
        }
        let item = pair_table(
            "title",
            Node::Text(category.title().to_owned()),
            "salary",
            Node::Integer(salary as i64),
        );
        items.push(item);
        i += 1;
    }
    let doc = list_table("categories", items);
    assert(Node::List(items)@->List_0 =~= Seq::new(views.len(), |i: int| category_doc(views[i])));
    Some(doc)
}

/// Builds the document that holds an attendee list.
pub fn document_from_attendees(attendees: &[AttendeeInfo]) -> (doc: Node)
    ensures
        doc@ == attendees_doc(attendee_views(attendees@)),
{
    let ghost views = attendee_views(attendees@);
    let mut items: Vec<Node> = Vec::new();
    let mut i: usize = 0;
    while i < attendees.len()
        invariant
            i <= attendees@.len(),
            views == attendee_views(attendees@),
            items@.len() == i,
            forall|j: int| 0 <= j < i ==> (#[trigger] items@[j])@ == attendee_doc(views[j]),
        decreases attendees@.len() - i,
    {
        let info = &attendees[i];
        let count: u32 = info.count;
        let item = pair_table(
            "title",
            Node::Text(info.title.clone()),
            "count",
            Node::Integer(count as i64),
        );
        items.push(item);
        i += 1;
    }
    let doc = list_table("attendees", items);
    assert(Node::List(items)@->List_0 =~= Seq::new(views.len(), |i: int| attendee_doc(views[i])));
    doc
}

/// The categories that loading yields: none from a file that does not exist,
/// and from the text of a file the categories of the document that the text
/// is, where it is one that holds categories.
pub open spec fn loaded_categories(content: Option<Seq<char>>) -> Option<Seq<CategoryView>> {
    match content {
        None => Some(Seq::empty()),
        Some(text) => match parsed_text(text) {
            Some(value) => decode_categories(value_doc(value)),
            None => None,
        },
    }
}

/// The attendee list that loading yields: an empty one from a file that does
/// not exist, and from the text of a file the list of the document that the
/// text is, where it is one that holds an attendee list.
pub open spec fn loaded_attendees(content: Option<Seq<char>>) -> Option<Seq<AttendeeView>> {
    match content {
        None => Some(Seq::empty()),
        Some(text) => match parsed_text(text) {
            Some(value) => decode_attendees(value_doc(value)),
            None => None,
        },
    }
}

/// The text that saving a list of categories yields, where there is one.
pub open spec fn saved_categories(list: Seq<CategoryView>) -> Option<Seq<char>> {
    if salaries_fit(list) {
        written_text(doc_value(categories_doc(list)))
    } else {
        None
    }
}

/// The text that saving an attendee list yields, where there is one.
pub open spec fn saved_attendees(list: Seq<AttendeeView>) -> Option<Seq<char>> {
    written_text(doc_value(attendees_doc(list)))
}

/// What an optional text holds.
pub open spec fn content_view(content: Option<&str>) -> Option<Seq<char>> {
    match content {
        Some(text) => Some(text@),
        None => None,
    }
}

/// Loads categories from the content of a category file.
///
/// `None` stands for a file that does not exist and yields an empty list.
/// A text that is no TOML document, or a document that does not hold an array
/// `categories` of valid categories, is refused with `StorageError::Toml`.
pub fn load_categories(content: Option<&str>) -> (result: Result<
    Vec<EmployeeCategory>,
    StorageError,
>)
    ensures
        match result {
            Ok(list) => loaded_categories(content_view(content)) == Some(category_views(list@))
                && forall|i: int| 0 <= i < list@.len() ==> (#[trigger] list@[i]).wf(),
            Err(error) => loaded_categories(content_view(content)) is None
                && error is Toml,
        },
        content is None ==> result is Ok && result->Ok_0@.len() == 0,
{
    match content {
        None => {
            let list: Vec<EmployeeCategory> = Vec::new();
            assert(category_views(list@) =~= Seq::empty());
            Ok(list)
        },
        Some(text) => match parse_value(text) {
            Ok(value) => {
                let doc = node_of_value(&value);
                match categories_from_document(&doc) {
                    Some(list) => Ok(list),
                    None => Err(
                        StorageError::Toml(parse_error("expected an array `categories` of categories")),
                    ),
                }
            },
            Err(error) => Err(StorageError::Toml(error)),
        },
    }
}

/// Writes a list of categories as the content of a category file.
///
/// A salary greater than a TOML integer can hold is refused with
/// `StorageError::TomlWrite`, as is whatever the writer refuses.
pub fn save_categories(categories: &[EmployeeCategory]) -> (result: Result<String, StorageError>)
    ensures
        match result {
            Ok(text) => saved_categories(category_views(categories@)) == Some(text@),
            Err(error) => saved_categories(category_views(categories@)) is None
                && error is TomlWrite,
        },
{
    match document_from_categories(categories) {
        Some(doc) => {
            let value = value_of_node(&doc);
            match write_value(&value) {
                Ok(text) => Ok(text),
                Err(error) => Err(StorageError::TomlWrite(error)),
            }
        },
        None => Err(StorageError::TomlWrite(write_error("out-of-range value for u64 type"))),
    }
}

/// Loads an attendee list from the content of an attendee file.
///
/// `None` stands for a file that does not exist and yields an empty list.
/// A text that is no TOML document, or a document that does not hold an array
/// `attendees` of attendee entries, is refused with `StorageError::Toml`.
pub fn load_attendees(content: Option<&str>) -> (result: Result<Vec<AttendeeInfo>, StorageError>)
    ensures
        match result {
            Ok(list) => loaded_attendees(content_view(content)) == Some(attendee_views(list@)),
            Err(error) => loaded_attendees(content_view(content)) is None && error is Toml,
        },
        content is None ==> result is Ok && result->Ok_0@.len() == 0,
{
    match content {
        None => {
            let list: Vec<AttendeeInfo> = Vec::new();
            assert(attendee_views(list@) =~= Seq::empty());
            Ok(list)
        },
        Some(text) => match parse_value(text) {
            Ok(value) => {
                let doc = node_of_value(&value);
                match attendees_from_document(&doc) {
                    Some(list) => Ok(list),
                    None => Err(
                        StorageError::Toml(parse_error("expected an array `attendees` of attendee entries")),
                    ),
                }
            },
            Err(error) => Err(StorageError::Toml(error)),
        },
    }
}

/// Writes an attendee list as the content of an attendee file.
///
/// Whatever the writer refuses is refused with `StorageError::TomlWrite`.
pub fn save_attendees(attendees: &[AttendeeInfo]) -> (result: Result<String, StorageError>)
    ensures
        match result {
            Ok(text) => saved_attendees(attendee_views(attendees@)) == Some(text@),
            Err(error) => saved_attendees(attendee_views(attendees@)) is None
                && error is TomlWrite,
        },
{
    let doc = document_from_attendees(attendees);
    let value = value_of_node(&doc);
    match write_value(&value) {
        Ok(text) => Ok(text),
        Err(error) => Err(StorageError::TomlWrite(error)),
    }
}

/// The document built from a list of valid categories holds exactly that
/// list, in its order.
pub proof fn lemma_categories_round_trip(list: Seq<CategoryView>)
    requires
        forall|i: int| 0 <= i < list.len() ==> category_valid(#[trigger] list[i]),
    ensures
        decode_categories(categories_doc(list)) == Some(list),
{
    reveal_strlit("title");
    reveal_strlit("salary");
    reveal_with_fuel(crate::document::field_from, 3);
    let items = Seq::new(list.len(), |i: int| category_doc(list[i]));
    assert(records(categories_doc(list), "categories"@) == Some(items));
    assert forall|i: int| 0 <= i < items.len() implies decode_category(#[trigger] items[i])
        == Some(list[i]) by {
        assert("title"@ != "salary"@) by {
            assert("title"@.len() == 5);
            assert("salary"@.len() == 6);
        }
    }
    assert(Seq::new(items.len(), |i: int| decode_category(items[i]).unwrap()) =~= list);
}

/// The document built from an attendee list holds exactly that list, in its
/// order.
pub proof fn lemma_attendees_round_trip(list: Seq<AttendeeView>)
    ensures
        decode_attendees(attendees_doc(list)) == Some(list),
{
    reveal_strlit("title");
    reveal_strlit("count");
    reveal_with_fuel(crate::document::field_from, 3);
    let items = Seq::new(list.len(), |i: int| attendee_doc(list[i]));
    assert(records(attendees_doc(list), "attendees"@) == Some(items));
    assert forall|i: int| 0 <= i < items.len() implies decode_attendee(#[trigger] items[i])
        == Some(list[i]) by {
        assert("title"@ != "count"@) by {
            assert("title"@.len() == 5);
            assert("count"@.len() == 5);
            assert("title"@[0] == 't');
            assert("count"@[0] == 'c');
        }
    }
    assert(Seq::new(items.len(), |i: int| decode_attendee(items[i]).unwrap()) =~= list);
}

} // verus!
