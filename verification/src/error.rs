//! The failures of a conversion, each a value of its own kind.

use vstd::prelude::*;
use vstd::string::StringExecFns;
use crate::host::opt_str_view;

verus! {

/// Why a document could not be turned into a host value.
#[derive(Debug, PartialEq, Eq)]
pub enum ParseError {
    /// The text is not TOML. Carries the parser's message, position included.
    Syntax(String),
    /// A table holds the key `key` twice. `place` is what the parser's
    /// message says after the key, the table and the position; it is empty
    /// where the repetition was met in a document tree.
    DuplicateKey { key: String, place: String },
    /// A date-time is incomplete, or names a date or a time that does not
    /// exist.
    InvalidDatetime,
    /// Arrays and tables nest deeper than `MAX_DEPTH`.
    TooDeep,
}

/// The mathematical model of a [`ParseError`].
pub enum ParseErrorView {
    Syntax(Seq<char>),
    DuplicateKey { key: Seq<char>, place: Seq<char> },
    InvalidDatetime,
    TooDeep,
}

impl View for ParseError {
    type V = ParseErrorView;

    open spec fn view(&self) -> ParseErrorView {
        match self {
            ParseError::Syntax(m) => ParseErrorView::Syntax(m@),
            ParseError::DuplicateKey { key, place } => ParseErrorView::DuplicateKey {
                key: key@,
                place: place@,
            },
            ParseError::InvalidDatetime => ParseErrorView::InvalidDatetime,
            ParseError::TooDeep => ParseErrorView::TooDeep,
        }
    }
}

/// Why a host value could not be written as TOML.
#[derive(Debug, PartialEq, Eq)]
pub enum SerializeError {
    /// A value is of a type that TOML cannot hold. Carries the name of the
    /// type and, where the host gave one, the value's printed form.
    UnserializableType { class_name: String, repr: Option<String> },
    /// A key of a mapping is neither a string nor a boolean, or is null while
    /// no surrogate is set. Carries a description of the key.
    UnserializableKey(String),
    /// A date or a time names a day or a moment that does not exist.
    InvalidDatetime,
    /// Two keys of one mapping come out as the carried text.
    DuplicateKey(String),
    /// Lists, tuples and mappings nest deeper than `MAX_DEPTH`.
    TooDeep,
    /// The printer refused the document. Carries its message.
    Printer(String),
}

/// The mathematical model of a [`SerializeError`].
pub enum SerializeErrorView {
    UnserializableType { class_name: Seq<char>, repr: Option<Seq<char>> },
    UnserializableKey(Seq<char>),
    InvalidDatetime,
    DuplicateKey(Seq<char>),
    TooDeep,
    Printer(Seq<char>),
}

impl View for SerializeError {
    type V = SerializeErrorView;

    open spec fn view(&self) -> SerializeErrorView {
        match self {
            SerializeError::UnserializableType { class_name, repr } => {
                SerializeErrorView::UnserializableType {
                    class_name: class_name@,
                    repr: opt_str_view(*repr),
                }
            },
            SerializeError::UnserializableKey(k) => SerializeErrorView::UnserializableKey(k@),
            SerializeError::InvalidDatetime => SerializeErrorView::InvalidDatetime,
            SerializeError::DuplicateKey(k) => SerializeErrorView::DuplicateKey(k@),
            SerializeError::TooDeep => SerializeErrorView::TooDeep,
            SerializeError::Printer(m) => SerializeErrorView::Printer(m@),
        }
    }
}

/// The message that reports a repeated key.
pub open spec fn duplicate_key_text(key: Seq<char>) -> Seq<char> {
    "duplicate key: `"@ + key + "`"@
}

/// How a value is named in a message: its printed form followed by the name
/// of its type in brackets, or the name alone where there is no printed form.
pub open spec fn described(class_name: Seq<char>, repr: Option<Seq<char>>) -> Seq<char> {
    match repr {
        Some(r) => r + " ("@ + class_name + ")"@,
        None => class_name,
    }
}

impl ParseErrorView {
    /// The message of the error.
    pub open spec fn message(self) -> Seq<char> {
        match self {
            ParseErrorView::Syntax(m) => m,
            ParseErrorView::DuplicateKey { key, place } => duplicate_key_text(key) + place,
            ParseErrorView::InvalidDatetime => "invalid datetime"@,
            ParseErrorView::TooDeep => "document is nested too deeply"@,
        }
    }
}

impl SerializeErrorView {
    /// The message of the error.
    pub open spec fn message(self) -> Seq<char> {
        match self {
            SerializeErrorView::UnserializableType { class_name, repr } => described(
                class_name,
                repr,
            ) + " is not serializable to TOML"@,
            SerializeErrorView::UnserializableKey(k) => k + " is not serializable as a TOML key"@,
            SerializeErrorView::InvalidDatetime => "unable to convert datetime to a TOML datetime"@,
            SerializeErrorView::DuplicateKey(k) => duplicate_key_text(k),
            SerializeErrorView::TooDeep => "value is nested too deeply"@,
            SerializeErrorView::Printer(m) => m,
        }
    }
}

/// Builds the description of a value from the name of its type and its
/// printed form.
pub fn describe(class_name: &str, repr: Option<&str>) -> (text: String)
    ensures
        text@ == described(class_name@, crate::host::opt_slice_view(repr)),
{
    match repr {
        Some(r) => {
            let mut text = String::from_str(r);
            text.append(" (");
            text.append(class_name);
            text.append(")");
            text
        },
        None => String::from_str(class_name),
    }
}

/// Builds the message that reports `key` as repeated.
pub fn duplicate_key_message(key: &str) -> (text: String)
    ensures
        text@ == duplicate_key_text(key@),
{
    let mut text = String::from_str("duplicate key: `");
    text.append(key);
    text.append("`");
    text
}

impl ParseError {
    /// The message of the error, as a caller would print it.
    pub fn message(&self) -> (text: String)
        ensures
            text@ == self@.message(),
    {
        match self {
            ParseError::Syntax(m) => m.clone(),
            ParseError::DuplicateKey { key, place } => {
                let mut text = duplicate_key_message(key.as_str());
                text.append(place.as_str());
                text
            },
            ParseError::InvalidDatetime => String::from_str("invalid datetime"),
            ParseError::TooDeep => String::from_str("document is nested too deeply"),
        }
    }
}

impl SerializeError {
    /// The message of the error, as a caller would print it.
    pub fn message(&self) -> (text: String)
        ensures
            text@ == self@.message(),
    {
        match self {
            SerializeError::UnserializableType { class_name, repr } => {
                let mut text = match repr {
                    Some(r) => describe(class_name.as_str(), Some(r.as_str())),
                    None => describe(class_name.as_str(), None),
                };
                text.append(" is not serializable to TOML");
                text
            },
            SerializeError::UnserializableKey(k) => {
                let mut text = k.clone();
                text.append(" is not serializable as a TOML key");
                text
            },
            SerializeError::InvalidDatetime => String::from_str(
                "unable to convert datetime to a TOML datetime",
            ),
            SerializeError::DuplicateKey(k) => duplicate_key_message(k.as_str()),
            SerializeError::TooDeep => String::from_str("value is nested too deeply"),
            SerializeError::Printer(m) => m.clone(),
        }
    }
}

} // verus!
