//! TOML documents as trees that the verifier can read.
//!
//! The `toml` crate parses and writes the text.  What it hands over, a
//! `toml::Value`, is opaque to the verifier, so it is converted, one for one,
//! to a `Node`, on which the rest of the crate works.  The statements of this
//! module about the `toml` crate are taken on trust.

use vstd::prelude::*;

verus! {

/// A value of a TOML document, `toml::Value`.
#[verifier::external_type_specification]
#[verifier::external_body]
pub struct ExValue(toml::Value);

/// Why a text is no TOML document, or no document of the expected shape,
/// `toml::de::Error`.
#[verifier::external_type_specification]
#[verifier::external_body]
pub struct ExParseError(toml::de::Error);

/// Why a value could not be written as TOML, `toml::ser::Error`.
#[verifier::external_type_specification]
#[verifier::external_body]
pub struct ExWriteError(toml::ser::Error);

/// A value of a TOML document.
///
/// Strings, integers, arrays and tables are held as plain values.  A table is
/// the list of its keys with their values.  Floats, booleans and dates, which
/// this crate never looks into, are carried along as they came.
#[derive(Debug, PartialEq)]
pub enum Node {
    Text(String),
    Integer(i64),
    List(Vec<Node>),
    Table(Vec<(String, Node)>),
    Other(toml::Value),
}

/// What a node holds.
pub enum Doc {
    Text(Seq<char>),
    Integer(int),
    List(Seq<Doc>),
    Table(Seq<(Seq<char>, Doc)>),
    Other(toml::Value),
}

impl Node {
    /// What the node holds.
    pub open spec fn view(&self) -> Doc
        decreases self,
    {
        match self {
            Node::Text(text) => Doc::Text(text@),
            Node::Integer(number) => Doc::Integer(*number as int),
            Node::List(items) => Doc::List(
                Seq::new(
                    items@.len(),
                    |i: int|
                        if 0 <= i < items@.len() {
                            items@[i].view()
                        } else {
                            Doc::Integer(0)
                        },
                ),
            ),
            Node::Table(entries) => Doc::Table(
                Seq::new(
                    entries@.len(),
                    |i: int|
                        if 0 <= i < entries@.len() {
                            (entries@[i].0@, entries@[i].1.view())
                        } else {
                            (Seq::empty(), Doc::Integer(0))
                        },
                ),
            ),
            Node::Other(value) => Doc::Other(*value),
        }
    }
}

/// The value that the `toml` crate reads from a text, where the text is a
/// TOML document.
pub uninterp spec fn parsed_text(text: Seq<char>) -> Option<toml::Value>;

/// What a value of the `toml` crate holds.
pub uninterp spec fn value_doc(value: toml::Value) -> Doc;

/// The value of the `toml` crate that is built from what a node holds.
pub uninterp spec fn doc_value(doc: Doc) -> toml::Value;

/// The text that the `toml` crate writes for a value, where it can write it.
pub uninterp spec fn written_text(value: toml::Value) -> Option<Seq<char>>;

/// `toml::from_str`, reading a whole document as a `toml::Value`.  The value,
/// or that there is none, depends on the text alone.
#[verifier::external_body]
pub(crate) fn parse_value(text: &str) -> (result: Result<toml::Value, toml::de::Error>)
    ensures
        match result {
            Ok(value) => parsed_text(text@) == Some(value),
            Err(_) => parsed_text(text@).is_none(),
        },
{
    toml::from_str::<toml::Value>(text)
}

/// Converts a `toml::Value` to a node, variant by variant.  The node holds
/// what the value holds.
#[verifier::external_body]
pub(crate) fn node_of_value(value: &toml::Value) -> (node: Node)
    ensures
        node@ == value_doc(*value),
{
    match value {
        toml::Value::String(text) => Node::Text(text.clone()),
        toml::Value::Integer(number) => Node::Integer(*number),
        toml::Value::Array(items) => Node::List(items.iter().map(node_of_value).collect()),
        toml::Value::Table(table) => Node::Table(
            table.iter().map(|(key, item)| (key.clone(), node_of_value(item))).collect(),
        ),
        other => Node::Other(other.clone()),
    }
}

/// Converts a node to a `toml::Value`, variant by variant.  The value depends
/// on what the node holds alone.
#[verifier::external_body]
pub(crate) fn value_of_node(node: &Node) -> (value: toml::Value)
    ensures
        value == doc_value(node@),
{
    match node {
        Node::Text(text) => toml::Value::String(text.clone()),
        Node::Integer(number) => toml::Value::Integer(*number),
        Node::List(items) => toml::Value::Array(items.iter().map(value_of_node).collect()),
        Node::Table(entries) => toml::Value::Table(
            entries.iter().map(|(key, item)| (key.clone(), value_of_node(item))).collect(),
        ),
        Node::Other(value) => value.clone(),
    }
}

/// `toml::to_string_pretty`.  The text, or that there is none, depends on the
/// value alone.
#[verifier::external_body]
pub(crate) fn write_value(value: &toml::Value) -> (result: Result<String, toml::ser::Error>)
    ensures
        match result {
            Ok(text) => written_text(*value) == Some(text@),
            Err(_) => written_text(*value).is_none(),
        },
{
    toml::to_string_pretty(value)
}

/// `serde::de::Error::custom` for `toml::de::Error`: an error that carries
/// the message.
#[verifier::external_body]
pub(crate) fn parse_error(message: &str) -> (error: toml::de::Error) {
    serde::de::Error::custom(message)
}

/// `serde::ser::Error::custom` for `toml::ser::Error`: an error that carries
/// the message.
#[verifier::external_body]
pub(crate) fn write_error(message: &str) -> (error: toml::ser::Error) {
    serde::ser::Error::custom(message)
}

/// The value that the first entry under `key` holds, looking from the place
/// `from` onwards.
pub open spec fn field_from(entries: Seq<(Seq<char>, Doc)>, key: Seq<char>, from: int) -> Option<
    Doc,
>
    decreases entries.len() - from,
{
    if from < 0 || from >= entries.len() {
        None
    } else if entries[from].0 == key {
        Some(entries[from].1)
    } else {
        field_from(entries, key, from + 1)
    }
}

/// The value that a table holds under `key`.
pub open spec fn field(entries: Seq<(Seq<char>, Doc)>, key: Seq<char>) -> Option<Doc> {
    field_from(entries, key, 0)
}

/// Looks up the value that a table holds under `key`.
pub(crate) fn find_field<'a>(entries: &'a Vec<(String, Node)>, key: &str) -> (found: Option<&'a Node>)
    ensures
        match found {
            Some(node) => field(Node::Table(*entries)@->Table_0, key@) == Some(node@),
            None => field(Node::Table(*entries)@->Table_0, key@) is None,
        },
{
    let ghost docs = Node::Table(*entries)@->Table_0;
    let wanted: String = key.to_owned();
    let mut i: usize = 0;
    while i < entries.len()
        invariant
            i <= entries@.len(),
            wanted@ == key@,
            docs == Node::Table(*entries)@->Table_0,
            docs.len() == entries@.len(),
            field(docs, key@) == field_from(docs, key@, i as int),
        decreases entries@.len() - i,
    {
        if entries[i].0 == wanted {
            return Some(&entries[i].1);
        }
        i += 1;
    }
    None
}

} // verus!
