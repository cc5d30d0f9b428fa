//! Conversion between TOML text and the values of a dynamically typed host.
//!
//! [`deserialize`] reads a document into a [`HostValue`]; [`serialize`] and
//! [`serialize_pretty`] write one as TOML. The text itself is read and written
//! by the `toml` crate. What is proved here is the conversion between the
//! parsed document and the host's values: which document becomes which
//! value, which value becomes which document, and on which inputs either
//! fails, with which error.

pub mod datetime;
pub mod de;
pub mod document;
pub mod error;
pub mod host;
pub mod nesting;
pub mod py_type;
pub mod round_trip;
pub mod ser;
pub mod text;
pub mod toml_io;
pub mod value;

use vstd::prelude::*;
use crate::de::{decoded, spec_deserialize, spec_parse_failure, parse_failure, PyDeserializer};
use crate::error::{ParseError, ParseErrorView, SerializeError, SerializeErrorView};
use crate::host::{opt_slice_view, HostValue, HostView};
use crate::ser::{encoded, host_depth_within, lemma_encode_shape, spec_encode, SerializePyObject};
use crate::text::{chars_of, replace_all, replaced, string_of};
use crate::document::{from_toml, parsed_model, print_compact, print_pretty};
use crate::nesting::{nesting_within, text_nesting};
use crate::toml_io::{
    parse_value, printed_view, toml_compact_text, toml_document, toml_pretty_text,
};
use crate::value::{TomlValue, TomlView, MAX_DEPTH};

verus! {

/// The version of this package, as the package declares it.
pub const PACKAGE_VERSION: &'static str = "0.12.0";

/// What reading gives, from what the parser made of the text: the kind of
/// failure that the parser's message tells, or what the document becomes.
pub open spec fn spec_load(parsed: Result<TomlView, Seq<char>>, none: Option<Seq<char>>) -> Result<
    HostView,
    ParseErrorView,
> {
    match parsed {
        Ok(document) => spec_deserialize(document, none),
        Err(message) => Err(spec_parse_failure(message)),
    }
}

/// What a host value is written as, as a whole: `TooDeep` for a value that
/// nests deeper than `MAX_DEPTH`, else what its root is written as.
pub open spec fn spec_serialize(h: HostView, none: Option<Seq<char>>) -> Result<
    TomlView,
    SerializeErrorView,
> {
    if h.depth() > MAX_DEPTH {
        Err(SerializeErrorView::TooDeep)
    } else {
        spec_encode(h, none)
    }
}

/// What writing gives, from what the printer made of the document: the text,
/// or the printer's message as a `Printer` error.
pub open spec fn spec_printed(printed: Result<Seq<char>, Seq<char>>) -> Result<
    Seq<char>,
    SerializeErrorView,
> {
    match printed {
        Ok(text) => Ok(text),
        Err(message) => Err(SerializeErrorView::Printer(message)),
    }
}

/// The model of what writing hands back.
pub open spec fn written(r: Result<String, SerializeError>) -> Result<
    Seq<char>,
    SerializeErrorView,
> {
    match r {
        Ok(text) => Ok(text@),
        Err(e) => Err(e@),
    }
}

/// The version in the spelling of the host's package index: `-alpha` is
/// `a`, `-beta` is `b`.
pub open spec fn host_version(version: Seq<char>) -> Seq<char> {
    replaced(replaced(version, "-alpha"@, "a"@), "-beta"@, "b"@)
}

/// What reading a text gives: `TooDeep` for a text that nests deeper than
/// `MAX_DEPTH` by the scan of its characters, before the parser sees it;
/// else what [`spec_load`] gives for what the parser makes of the text.
pub open spec fn spec_read(text: Seq<char>, none: Option<Seq<char>>) -> Result<
    HostView,
    ParseErrorView,
> {
    if text_nesting(text) > MAX_DEPTH {
        Err(ParseErrorView::TooDeep)
    } else {
        spec_load(toml_document(text), none)
    }
}

/// Gives the host value for what the parser made of a text.
///
/// A parsed document is copied and walked, with `none_value` as the null
/// surrogate; one that nests deeper than `MAX_DEPTH` is `TooDeep`, and
/// neither the copy nor the walk goes deeper than that. A message of the
/// parser becomes `DuplicateKey` where it reports a repeated key, and
/// `Syntax` otherwise.
pub fn load(parsed: Result<toml::Value, String>, none_value: Option<&str>) -> (r: Result<
    HostValue,
    ParseError,
>)
    ensures
        decoded(r) == spec_load(parsed_model(parsed), opt_slice_view(none_value)),
{
    match parsed {
        Ok(value) => match from_toml(value, MAX_DEPTH) {
            Some(document) => PyDeserializer::new(none_value).visit(&document),
            None => Err(ParseError::TooDeep),
        },
        Err(message) => Err(parse_failure(message)),
    }
}

/// Reads a TOML document into a host value.
///
/// A text that nests deeper than `MAX_DEPTH` is refused with `TooDeep`
/// before it is parsed. Where the text is no TOML, or holds a key twice in
/// one table, the parser refuses the whole text before any value of it is
/// looked at: such an error comes before an `InvalidDatetime`, wherever in
/// the text the two stand. A string of the document that is equal to
/// `none_value` becomes the host's null.
pub fn deserialize(toml_data: &str, none_value: Option<&str>) -> (r: Result<HostValue, ParseError>)
    ensures
        decoded(r) == spec_read(toml_data@, opt_slice_view(none_value)),
{
    if !nesting_within(toml_data, MAX_DEPTH) {
        return Err(ParseError::TooDeep);
    }
    let parsed = parse_value(toml_data);
    load(parsed, none_value)
}

/// Turns a host value into a TOML document tree, ready for the printer.
///
/// Fails with `TooDeep` where the value nests deeper than `MAX_DEPTH`, and
/// else exactly where the writing of a node fails. A document that comes
/// out holds no key twice in any table.
pub fn dump(obj: &HostValue, none_value: Option<&str>) -> (r: Result<TomlValue, SerializeError>)
    ensures
        encoded(r) == spec_serialize(obj@, opt_slice_view(none_value)),
        r matches Ok(document) ==> document@.keys_unique() && document@.depth() <= MAX_DEPTH + 1,
{
    if !host_depth_within(obj, MAX_DEPTH) {
        return Err(SerializeError::TooDeep);
    }
    proof {
        lemma_encode_shape(obj@, opt_slice_view(none_value));
    }
    SerializePyObject::new(obj, none_value).serialize()
}

/// Gives the result of writing from what the printer made of the document.
pub fn printed(result: Result<String, String>) -> (r: Result<String, SerializeError>)
    ensures
        written(r) == spec_printed(printed_view(result)),
{
    match result {
        Ok(text) => Ok(text),
        Err(message) => Err(SerializeError::Printer(message)),
    }
}

/// Writes a host value as TOML, in the compact form.
///
/// Null is written as `none_value`; where none is set, null items and
/// entries with a null value are left out. The result is the printer's text
/// for the document that [`dump`] gives, the error of [`dump`], or the
/// printer's own refusal.
pub fn serialize(obj: &HostValue, none_value: Option<&str>) -> (r: Result<String, SerializeError>)
    ensures
        written(r) == (match spec_serialize(obj@, opt_slice_view(none_value)) {
            Ok(document) => spec_printed(toml_compact_text(document)),
            Err(e) => Err(e),
        }),
{
    match dump(obj, none_value) {
        Ok(document) => printed(print_compact(&document)),
        Err(e) => Err(e),
    }
}

/// Writes a host value as TOML, in the multi-line form. As [`serialize`],
/// with the printer's other layout.
pub fn serialize_pretty(obj: &HostValue, none_value: Option<&str>) -> (r: Result<
    String,
    SerializeError,
>)
    ensures
        written(r) == (match spec_serialize(obj@, opt_slice_view(none_value)) {
            Ok(document) => spec_printed(toml_pretty_text(document)),
            Err(e) => Err(e),
        }),
{
    match dump(obj, none_value) {
        Ok(document) => printed(print_pretty(&document)),
        Err(e) => Err(e),
    }
}

/// Puts a package version into the spelling of the host's package index.
pub fn normalize_version(version: &str) -> (r: String)
    ensures
        r@ == host_version(version@),
{
    let chars = chars_of(version);
    let alpha = chars_of("-alpha");
    let a = chars_of("a");
    let beta = chars_of("-beta");
    let b = chars_of("b");
    let first = replace_all(&chars, &alpha, &a);
    let second = replace_all(&first, &beta, &b);
    let r = string_of(&second, 0, second.len());
    proof {
        assert(second@.subrange(0, second@.len() as int) =~= second@);
    }
    r
}

/// The version of this package, in the spelling of the host's package
/// index.
pub fn get_version() -> (r: String)
    ensures
        r@ == host_version(PACKAGE_VERSION@),
{
    normalize_version(PACKAGE_VERSION)
}

} // verus!
