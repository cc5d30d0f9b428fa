//! The `toml` crate, as the conversion sees it: its values, its parser and
//! its printer. Nothing in this file is proved but the three methods of
//! [`Float`]: each contract of the others says what the crate is taken to do.

use std::str::FromStr;
use vstd::prelude::*;
use crate::nesting::text_nesting;
use crate::value::{Date, DateTimeValue, Offset, Time, TomlView, MAX_DEPTH};

verus! {

#[verifier::external_type_specification]
#[verifier::external_body]
pub struct ExTomlValue(toml::Value);

#[verifier::external_type_specification]
#[verifier::external_body]
pub struct ExTomlDatetime(toml::value::Datetime);

/// What a `toml::Value` holds, node by node: the scalar of a scalar variant,
/// the items of an array in order, the entries of a table in the order in
/// which its map walks them.
pub uninterp spec fn toml_model(value: toml::Value) -> TomlView;

/// The three parts of a `toml::value::Datetime`, field by field.
pub uninterp spec fn toml_datetime_parts(datetime: toml::value::Datetime) -> DateTimeValue;

/// What `toml::from_str` makes of a text: the document, or the message of
/// the error that it reports.
pub uninterp spec fn toml_document(text: Seq<char>) -> Result<TomlView, Seq<char>>;

/// What `toml::to_string` writes for a document, or the message of the error
/// that it reports.
pub uninterp spec fn toml_compact_text(document: TomlView) -> Result<Seq<char>, Seq<char>>;

/// What `toml::to_string_pretty` writes for a document, or the message of
/// the error that it reports.
pub uninterp spec fn toml_pretty_text(document: TomlView) -> Result<Seq<char>, Seq<char>>;

/// What `toml::value::Datetime::from_str` reads from a literal, `None` where
/// it reports an error.
pub uninterp spec fn toml_datetime(literal: Seq<char>) -> Option<DateTimeValue>;

/// A TOML float, held as the `toml` crate holds it: the library carries it
/// through and never looks inside.
#[derive(Debug, PartialEq)]
pub struct Float {
    value: toml::Value,
}

/// One node of a `toml::Value`, with what stands under it still in the
/// crate's own form.
pub enum Node {
    String(String),
    Integer(i64),
    Float(Float),
    Boolean(bool),
    Datetime(toml::value::Datetime),
    Array(Vec<toml::Value>),
    Table(Vec<(String, toml::Value)>),
}

/// The models of a run of `toml::Value`s, one for one.
pub open spec fn models_of(items: Seq<toml::Value>) -> Seq<TomlView> {
    Seq::new(items.len(), |i: int| toml_model(items[i]))
}

/// The models of a run of entries of a `toml::Value` table, one for one.
pub open spec fn entry_models_of(entries: Seq<(String, toml::Value)>) -> Seq<(Seq<char>, TomlView)> {
    Seq::new(entries.len(), |i: int| (entries[i].0@, toml_model(entries[i].1)))
}

/// The keys of a run of entries, in order.
pub open spec fn entry_keys_of(entries: Seq<(String, toml::Value)>) -> Seq<Seq<char>> {
    Seq::new(entries.len(), |i: int| entries[i].0@)
}

/// What a node holds.
pub open spec fn node_model(node: Node) -> TomlView {
    match node {
        Node::String(s) => TomlView::String(s@),
        Node::Integer(i) => TomlView::Integer(i),
        Node::Float(f) => TomlView::Float(f),
        Node::Boolean(b) => TomlView::Boolean(b),
        Node::Datetime(d) => TomlView::Datetime(toml_datetime_parts(d)),
        Node::Array(items) => TomlView::Array(models_of(items@)),
        Node::Table(entries) => TomlView::Table(entry_models_of(entries@)),
    }
}

impl Float {
    /// Takes a float of the `toml` crate; `None` for any other value.
    pub fn new(value: toml::Value) -> (r: Option<Float>)
        ensures
            toml_model(value) matches TomlView::Float(f) ==> r == Some(f),
            !(toml_model(value) is Float) ==> r is None,
    {
        match node_of(value) {
            Node::Float(f) => Some(f),
            _ => None,
        }
    }

    /// The float as a value of the `toml` crate.
    pub fn to_toml(&self) -> (r: toml::Value)
        ensures
            toml_model(r) == TomlView::Float(*self),
    {
        value_of(Node::Float(self.duplicate()))
    }

    /// A second handle on the same float.
    pub fn duplicate(&self) -> (r: Float)
        ensures
            r == *self,
    {
        Float { value: copy_value(&self.value) }
    }
}

/// `Clone` of `toml::Value`: the copy holds what the value that was copied holds.
#[verifier::external_body]
fn copy_value(value: &toml::Value) -> (r: toml::Value)
    ensures
        r == *value,
{
    value.clone()
}

/// Takes a `toml::Value` apart by its variant, one level deep. The node
/// holds what the variant holds; the items of an array and the entries of a
/// table come in the order in which the crate keeps them, which for a table
/// is the order in which its entries were put in.
#[verifier::external_body]
pub(crate) fn node_of(value: toml::Value) -> (node: Node)
    ensures
        node_model(node) == toml_model(value),
{
    match value {
        toml::Value::String(s) => Node::String(s),
        toml::Value::Integer(i) => Node::Integer(i),
        toml::Value::Float(x) => Node::Float(Float { value: toml::Value::Float(x) }),
        toml::Value::Boolean(b) => Node::Boolean(b),
        toml::Value::Datetime(d) => Node::Datetime(d),
        toml::Value::Array(a) => Node::Array(a),
        toml::Value::Table(t) => Node::Table(t.into_iter().collect()),
    }
}

/// Builds the `toml::Value` of a node: the variant of the node's kind around
/// what the node holds, a table's entries put into the crate's map in their
/// order. Asked for a table only where no key stands twice, so that the map
/// keeps every entry.
#[verifier::external_body]
pub(crate) fn value_of(node: Node) -> (value: toml::Value)
    requires
        node matches Node::Table(entries) ==> entry_keys_of(entries@).no_duplicates(),
    ensures
        toml_model(value) == node_model(node),
{
    match node {
        Node::String(s) => toml::Value::String(s),
        Node::Integer(i) => toml::Value::Integer(i),
        Node::Float(f) => f.value,
        Node::Boolean(b) => toml::Value::Boolean(b),
        Node::Datetime(d) => toml::Value::Datetime(d),
        Node::Array(a) => toml::Value::Array(a),
        Node::Table(t) => toml::Value::Table(t.into_iter().collect()),
    }
}

/// Reads the public fields of a `toml::value::Datetime`, part by part.
#[verifier::external_body]
pub(crate) fn datetime_parts(d: &toml::value::Datetime) -> (r: DateTimeValue)
    ensures
        r == toml_datetime_parts(*d),
{
    DateTimeValue {
        date: d.date.as_ref().map(|x| Date { year: x.year, month: x.month, day: x.day }),
        time: d.time.as_ref().map(|t| Time { hour: t.hour, minute: t.minute, second: t.second, nanosecond: t.nanosecond }),
        offset: d.offset.as_ref().map(|o| match o {
            toml::value::Offset::Z => Offset::Z,
            toml::value::Offset::Custom { hours, minutes } => Offset::Custom { hours: *hours, minutes: *minutes },
        }),
    }
}

/// Builds a `toml::value::Datetime` whose public fields hold the parts of
/// `d`, part by part.
#[verifier::external_body]
pub(crate) fn datetime_of_parts(d: &DateTimeValue) -> (r: toml::value::Datetime)
    ensures
        toml_datetime_parts(r) == *d,
{
    toml::value::Datetime {
        date: d.date.map(|x| toml::value::Date { year: x.year, month: x.month, day: x.day }),
        time: d.time.map(|t| toml::value::Time { hour: t.hour, minute: t.minute, second: t.second, nanosecond: t.nanosecond }),
        offset: d.offset.map(|o| match o {
            Offset::Z => toml::value::Offset::Z,
            Offset::Custom { hours, minutes } => toml::value::Offset::Custom { hours, minutes },
        }),
    }
}

/// `toml::from_str`, reading a whole document into a `toml::Value`. The
/// result is the document that the crate's parser finds in `text`, or the
/// message of its error: both depend on `text` alone. The parser calls
/// itself once more for each array and inline table that stands inside
/// another, and builds a table inside a table for each further key of a
/// dotted key and of a table header, with no limit of its own. So it is
/// asked only for a text whose brackets, braces and periods outside of
/// strings and comments go no deeper than `MAX_DEPTH`.
#[verifier::external_body]
pub(crate) fn parse_value(text: &str) -> (r: Result<toml::Value, String>)
    requires
        text_nesting(text@) <= MAX_DEPTH,
    ensures
        match r {
            Ok(value) => toml_document(text@) == Ok::<TomlView, Seq<char>>(toml_model(value)),
            Err(message) => toml_document(text@) == Err::<TomlView, Seq<char>>(message@),
        },
{
    match toml::from_str::<toml::Value>(text) {
        Ok(value) => Ok(value),
        Err(e) => Err(e.to_string()),
    }
}

/// The model of what a print hands back.
pub open spec fn printed_view(r: Result<String, String>) -> Result<Seq<char>, Seq<char>> {
    match r {
        Ok(t) => Ok(t@),
        Err(m) => Err(m@),
    }
}

/// `toml::to_string`, writing a document in the compact form. The result is
/// the text that the crate's printer writes, or the message of its error:
/// both depend on the document alone. Asked only for documents that nest no
/// deeper than the conversion allows.
#[verifier::external_body]
pub(crate) fn write_compact(document: &toml::Value) -> (r: Result<String, String>)
    requires
        toml_model(*document).depth() <= MAX_DEPTH + 1,
    ensures
        printed_view(r) == toml_compact_text(toml_model(*document)),
{
    match toml::to_string(document) {
        Ok(text) => Ok(text),
        Err(e) => Err(e.to_string()),
    }
}

/// `toml::to_string_pretty`, writing a document in the multi-line form.
/// As `write_compact`, with the crate's other printer.
#[verifier::external_body]
pub(crate) fn write_pretty(document: &toml::Value) -> (r: Result<String, String>)
    requires
        toml_model(*document).depth() <= MAX_DEPTH + 1,
    ensures
        printed_view(r) == toml_pretty_text(toml_model(*document)),
{
    match toml::to_string_pretty(document) {
        Ok(text) => Ok(text),
        Err(e) => Err(e.to_string()),
    }
}

/// `toml::value::Datetime::from_str`, reading one date-time literal. The
/// result is what the crate reads from `literal`, and `None` where the
/// crate reports an error: both depend on `literal` alone.
#[verifier::external_body]
pub(crate) fn read_datetime(literal: &str) -> (r: Option<toml::value::Datetime>)
    ensures
        match r {
            Some(d) => toml_datetime(literal@) == Some(toml_datetime_parts(d)),
            None => toml_datetime(literal@) is None,
        },
{
    match toml::value::Datetime::from_str(literal) {
        Ok(d) => Some(d),
        Err(_) => None,
    }
}

} // verus!
