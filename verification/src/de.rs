//! From a TOML document to a host value.
//!
//! The walk goes through the document in document order. A string equal to
//! the null surrogate becomes the host's null. A table whose first key is the
//! reserved date-time key stands for a date-time literal. A key that a table
//! holds for the second time stops the walk where it is met.
//!
//! A document that comes from a text never holds a key twice: the parser
//! refuses such a text as a whole, before the walk, and its message is read
//! by [`parse_failure`]. Nor does it hold a table with the reserved key:
//! the parser reads such a table as a date-time itself, or refuses the
//! text. The walk's own tests for the two are for a document tree that a
//! caller has built.

use vstd::hash_set::StringHashSet;
use vstd::prelude::*;
use vstd::string::StringExecFns;
use crate::datetime::{parse, spec_parse};
use crate::error::{ParseError, ParseErrorView};
use crate::host::{
    lemma_dict_view, lemma_list_view, opt_slice_view, hosts_view, pairs_view, HostKey,
    HostKeyView, HostValue, HostView,
};
use crate::text::{chars_of, holds_at, matches_at, string_of};
use crate::document::parse_datetime_literal;
use crate::toml_io::{toml_datetime, Float};
use crate::value::{
    depth_of_entries, depth_of_items, entries_view, keys_of, lemma_array_view, lemma_depth_of_entries, lemma_depth_of_items,
    lemma_table_view, values_view, DateTimeValue, TomlValue, TomlView, MAX_DEPTH,
};

verus! {

/// The key of the one-entry table that stands for a date-time literal.
pub const DATETIME_MAPPING_KEY: &'static str = "$__toml_private_datetime";

/// The model of what a walk hands back.
pub open spec fn decoded(r: Result<HostValue, ParseError>) -> Result<HostView, ParseErrorView> {
    match r {
        Ok(h) => Ok(h@),
        Err(e) => Err(e@),
    }
}

/// What a string of the document becomes: null where it is the surrogate,
/// itself otherwise.
pub open spec fn decode_str(s: Seq<char>, none: Option<Seq<char>>) -> HostView {
    if none == Some(s) {
        HostView::Null
    } else {
        HostView::Str(s)
    }
}

/// What the payload of a date-time table becomes, given what the literal
/// parser made of it: the date-time's host value, or `InvalidDatetime` where
/// the parser found no date-time.
pub open spec fn marker_outcome(parsed: Option<DateTimeValue>) -> Result<
    HostView,
    ParseErrorView,
> {
    match parsed {
        Some(d) => spec_parse(d),
        None => Err(ParseErrorView::InvalidDatetime),
    }
}

/// What a table that starts with the date-time key becomes, given its first
/// value as already walked: a date-time where that value is a string that
/// reads as a literal, `InvalidDatetime` otherwise.
pub open spec fn marker_value(first: HostView) -> Result<HostView, ParseErrorView> {
    match first {
        HostView::Str(s) => marker_outcome(toml_datetime(s)),
        _ => Err(ParseErrorView::InvalidDatetime),
    }
}

/// What a document node becomes on the host.
///
/// Scalars keep their value. An array becomes a list of its items, and a
/// table a mapping from its keys, as strings, to its values, both in document
/// order. The first item or entry that fails decides the error.
pub open spec fn spec_decode(v: TomlView, none: Option<Seq<char>>) -> Result<
    HostView,
    ParseErrorView,
>
    decreases v, 0int,
{
    match v {
        TomlView::String(s) => Ok(decode_str(s, none)),
        TomlView::Integer(i) => Ok(HostView::Int(i)),
        TomlView::Float(f) => Ok(HostView::Float(f)),
        TomlView::Boolean(b) => Ok(HostView::Bool(b)),
        TomlView::Datetime(d) => spec_parse(d),
        TomlView::Array(items) => match decode_items(items, none) {
            Ok(hosts) => Ok(HostView::List(hosts)),
            Err(e) => Err(e),
        },
        TomlView::Table(entries) => decode_table(entries, none),
    }
}

/// What a run of items becomes: the run of their host values, or the error
/// of the first item that fails.
pub open spec fn decode_items(items: Seq<TomlView>, none: Option<Seq<char>>) -> Result<
    Seq<HostView>,
    ParseErrorView,
>
    decreases items, 0int,
{
    if items.len() == 0 {
        Ok(Seq::empty())
    } else {
        match decode_items(items.drop_last(), none) {
            Err(e) => Err(e),
            Ok(hosts) => match spec_decode(items.last(), none) {
                Err(e) => Err(e),
                Ok(h) => Ok(hosts.push(h)),
            },
        }
    }
}

/// What the entries of a table become: the run of key and host value, or the
/// first error in document order. Within an entry the value is walked first;
/// then the key is held against the keys before it.
pub open spec fn decode_entries(
    entries: Seq<(Seq<char>, TomlView)>,
    none: Option<Seq<char>>,
) -> Result<Seq<(HostKeyView, HostView)>, ParseErrorView>
    decreases entries, 0int,
{
    if entries.len() == 0 {
        Ok(Seq::empty())
    } else {
        match decode_entries(entries.drop_last(), none) {
            Err(e) => Err(e),
            Ok(pairs) => match spec_decode(entries.last().1, none) {
                Err(e) => Err(e),
                Ok(h) => if keys_of(entries.drop_last()).contains(entries.last().0) {
                    Err(
                        ParseErrorView::DuplicateKey {
                            key: entries.last().0,
                            place: Seq::empty(),
                        },
                    )
                } else {
                    Ok(pairs.push((HostKeyView::Str(entries.last().0), h)))
                },
            },
        }
    }
}

/// What a table becomes: an empty mapping where it is empty; the date-time
/// that it stands for where its first key is the date-time key, whatever
/// follows; a mapping of its entries otherwise.
pub open spec fn decode_table(
    entries: Seq<(Seq<char>, TomlView)>,
    none: Option<Seq<char>>,
) -> Result<HostView, ParseErrorView>
    decreases entries, 1int,
{
    if entries.len() == 0 {
        Ok(HostView::Dict(Seq::empty()))
    } else {
        match spec_decode(entries[0].1, none) {
            Err(e) => Err(e),
            Ok(first) => if entries[0].0 == DATETIME_MAPPING_KEY@ {
                marker_value(first)
            } else {
                match decode_entries(entries, none) {
                    Ok(pairs) => Ok(HostView::Dict(pairs)),
                    Err(e) => Err(e),
                }
            },
        }
    }
}

/// What a whole walk gives: `TooDeep` for a document that nests deeper than
/// `MAX_DEPTH`, else what its root becomes.
pub open spec fn spec_deserialize(v: TomlView, none: Option<Seq<char>>) -> Result<
    HostView,
    ParseErrorView,
> {
    if v.depth() > MAX_DEPTH {
        Err(ParseErrorView::TooDeep)
    } else {
        spec_decode(v, none)
    }
}

/// The start of the message by which the parser reports a repeated key.
pub open spec fn duplicate_prefix() -> Seq<char> {
    "duplicate key: `"@
}

/// The backtick at `at` ends the key of the message: it is followed by the
/// end of the message, by the table that the parser names, or by the
/// position.
pub open spec fn ends_key(message: Seq<char>, at: int) -> bool {
    &&& 0 <= at < message.len()
    &&& message[at] == '`'
    &&& (at + 1 == message.len() || holds_at(message, at + 1, " for key `"@) || holds_at(
        message,
        at + 1,
        " at line "@,
    ))
}

/// The first place at or after `from` where a backtick ends the key, or
/// the length of the message where there is none.
pub open spec fn key_end_from(message: Seq<char>, from: int) -> int
    decreases message.len() - from,
{
    if from >= message.len() {
        message.len() as int
    } else if ends_key(message, from) {
        from
    } else {
        key_end_from(message, from + 1)
    }
}

/// What a message of the parser says: a repeated key where the message
/// starts with ``duplicate key: ` `` and a backtick ends the key, the key
/// being what stands between the two and the place what follows; a syntax
/// error otherwise.
pub open spec fn spec_parse_failure(message: Seq<char>) -> ParseErrorView {
    let start = duplicate_prefix().len() as int;
    let end = key_end_from(message, start);
    if holds_at(message, 0, duplicate_prefix()) && end < message.len() {
        ParseErrorView::DuplicateKey {
            key: message.subrange(start, end),
            place: message.subrange(end + 1, message.len() as int),
        }
    } else {
        ParseErrorView::Syntax(message)
    }
}

/// Reads the kind of failure off a message of the parser.
pub fn parse_failure(message: String) -> (e: ParseError)
    ensures
        e@ == spec_parse_failure(message@),
{
    let chars = chars_of(message.as_str());
    let prefix = chars_of("duplicate key: `");
    let table = chars_of(" for key `");
    let position = chars_of(" at line ");
    if !matches_at(&chars, 0, &prefix) {
        return ParseError::Syntax(message);
    }
    let start = prefix.len();
    let mut end: usize = start;
    while end < chars.len()
        invariant
            start <= end <= chars.len(),
            chars@ == message@,
            start == duplicate_prefix().len(),
            holds_at(chars@, 0, duplicate_prefix()),
            table@ == " for key `"@,
            position@ == " at line "@,
            key_end_from(chars@, start as int) == key_end_from(chars@, end as int),
        decreases chars.len() - end,
    {
        if chars[end] == '`' && (end + 1 == chars.len() || matches_at(&chars, end + 1, &table)
            || matches_at(&chars, end + 1, &position)) {
            return ParseError::DuplicateKey {
                key: string_of(&chars, start, end),
                place: string_of(&chars, end + 1, chars.len()),
            };
        }
        end += 1;
    }
    ParseError::Syntax(message)
}

/// An error among the first `k` items is the error of the whole run.
pub proof fn lemma_items_error_stays(items: Seq<TomlView>, none: Option<Seq<char>>, k: int)
    requires
        0 <= k <= items.len(),
        decode_items(items.take(k), none) is Err,
    ensures
        decode_items(items, none) == decode_items(items.take(k), none),
    decreases items.len() - k,
{
    if k < items.len() {
        assert(items.take(k + 1).drop_last() =~= items.take(k));
        lemma_items_error_stays(items, none, k + 1);
    } else {
        assert(items.take(k) =~= items);
    }
}

/// An error among the first `k` entries is the error of the whole run.
pub proof fn lemma_entries_error_stays(
    entries: Seq<(Seq<char>, TomlView)>,
    none: Option<Seq<char>>,
    k: int,
)
    requires
        0 <= k <= entries.len(),
        decode_entries(entries.take(k), none) is Err,
    ensures
        decode_entries(entries, none) == decode_entries(entries.take(k), none),
    decreases entries.len() - k,
{
    if k < entries.len() {
        assert(entries.take(k + 1).drop_last() =~= entries.take(k));
        lemma_entries_error_stays(entries, none, k + 1);
    } else {
        assert(entries.take(k) =~= entries);
    }
}

/// The first entry of a run that walks well walks well alone.
pub proof fn lemma_entries_first(entries: Seq<(Seq<char>, TomlView)>, none: Option<Seq<char>>)
    requires
        entries.len() > 0,
    ensures
        decode_entries(entries.take(1), none) == match spec_decode(entries[0].1, none) {
            Err(e) => Err::<Seq<(HostKeyView, HostView)>, ParseErrorView>(e),
            Ok(h) => Ok(seq![(HostKeyView::Str(entries[0].0), h)]),
        },
{
    let one = entries.take(1);
    assert(one.drop_last() =~= Seq::<(Seq<char>, TomlView)>::empty());
    assert(one.last() == entries[0]);
    assert(keys_of(one.drop_last()) =~= Seq::<Seq<char>>::empty());
    assert(decode_entries(one.drop_last(), none) == Ok::<
        Seq<(HostKeyView, HostView)>,
        ParseErrorView,
    >(Seq::empty()));
    match spec_decode(entries[0].1, none) {
        Ok(h) => {
            assert(Seq::<(HostKeyView, HostView)>::empty().push((HostKeyView::Str(entries[0].0), h))
                =~= seq![(HostKeyView::Str(entries[0].0), h)]);
        },
        Err(e) => {},
    }
}

/// Where the entries of a table walk well, no key stands twice among them,
/// and the result holds one pair for each entry, in order: the key as a
/// string and what the value becomes.
pub proof fn lemma_decoded_entries(entries: Seq<(Seq<char>, TomlView)>, none: Option<Seq<char>>)
    ensures
        decode_entries(entries, none) matches Ok(pairs) ==> {
            &&& keys_of(entries).no_duplicates()
            &&& pairs.len() == entries.len()
            &&& forall|i: int|
                0 <= i < entries.len() ==> {
                    &&& (#[trigger] pairs[i]).0 == HostKeyView::Str(entries[i].0)
                    &&& spec_decode(entries[i].1, none) == Ok::<HostView, ParseErrorView>(
                        pairs[i].1,
                    )
                }
        },
    decreases entries.len(),
{
    if entries.len() > 0 {
        let rest = entries.drop_last();
        lemma_decoded_entries(rest, none);
        if let Ok(pairs) = decode_entries(entries, none) {
            let before = decode_entries(rest, none)->Ok_0;
            assert(keys_of(entries) =~= keys_of(rest).push(entries.last().0));
            assert forall|i: int| 0 <= i < entries.len() implies {
                &&& (#[trigger] pairs[i]).0 == HostKeyView::Str(entries[i].0)
                &&& spec_decode(entries[i].1, none) == Ok::<HostView, ParseErrorView>(pairs[i].1)
            } by {
                if i < rest.len() {
                    assert(pairs[i] == before[i]);
                    assert(rest[i] == entries[i]);
                }
            }
        }
    }
}

/// Entries whose keys differ from one another and whose values all walk well
/// walk well together.
pub proof fn lemma_distinct_entries_decode(
    entries: Seq<(Seq<char>, TomlView)>,
    none: Option<Seq<char>>,
)
    requires
        keys_of(entries).no_duplicates(),
        forall|j: int| 0 <= j < entries.len() ==> spec_decode((#[trigger] entries[j]).1, none) is Ok,
    ensures
        decode_entries(entries, none) is Ok,
    decreases entries.len(),
{
    if entries.len() > 0 {
        let rest = entries.drop_last();
        assert(keys_of(entries) =~= keys_of(rest).push(entries.last().0));
        assert forall|j: int| 0 <= j < rest.len() implies spec_decode(
            (#[trigger] rest[j]).1,
            none,
        ) is Ok by {
            assert(rest[j] == entries[j]);
        }
        assert(keys_of(rest).no_duplicates()) by {
            assert forall|a: int, b: int|
                0 <= a < keys_of(rest).len() && 0 <= b < keys_of(rest).len() && a != b implies keys_of(
                rest,
            )[a] != keys_of(rest)[b] by {
                assert(keys_of(entries)[a] == keys_of(rest)[a]);
                assert(keys_of(entries)[b] == keys_of(rest)[b]);
            }
        }
        lemma_distinct_entries_decode(rest, none);
        assert(entries[entries.len() - 1] == entries.last());
        if keys_of(rest).contains(entries.last().0) {
            let a = choose|a: int| 0 <= a < keys_of(rest).len() && keys_of(rest)[a] == entries.last().0;
            assert(keys_of(entries)[a] == keys_of(entries)[entries.len() - 1]);
        }
    }
}

/// Duplicate-key rejection. A table that holds a key for the second time at
/// entry `i`, with no repetition before it and with values that walk well up
/// to there, fails with `DuplicateKey` for that key, whatever follows the
/// entry. A table that starts with the date-time key is no plain table and
/// stands apart.
pub proof fn lemma_duplicate_key_rejected(
    entries: Seq<(Seq<char>, TomlView)>,
    none: Option<Seq<char>>,
    i: int,
)
    requires
        0 < i < entries.len(),
        keys_of(entries.take(i)).contains(entries[i].0),
        keys_of(entries.take(i)).no_duplicates(),
        forall|j: int| 0 <= j <= i ==> spec_decode((#[trigger] entries[j]).1, none) is Ok,
        entries[0].0 != DATETIME_MAPPING_KEY@,
    ensures
        spec_decode(TomlView::Table(entries), none) == Err::<HostView, ParseErrorView>(
            ParseErrorView::DuplicateKey { key: entries[i].0, place: Seq::empty() },
        ),
{
    let head = entries.take(i);
    assert forall|j: int| 0 <= j < head.len() implies spec_decode(
        (#[trigger] head[j]).1,
        none,
    ) is Ok by {
        assert(head[j] == entries[j]);
    }
    lemma_distinct_entries_decode(head, none);
    let upto = entries.take(i + 1);
    assert(upto.drop_last() =~= head);
    assert(upto.last() == entries[i]);
    assert(decode_entries(upto, none) == Err::<Seq<(HostKeyView, HostView)>, ParseErrorView>(
        ParseErrorView::DuplicateKey { key: entries[i].0, place: Seq::empty() },
    ));
    lemma_entries_error_stays(entries, none, i + 1);
}

/// No backtick before `at` ends the key, and the one at `at` does: there
/// the key ends.
pub proof fn lemma_key_end(message: Seq<char>, from: int, at: int)
    requires
        0 <= from <= at,
        ends_key(message, at),
        forall|k: int| from <= k < at ==> !ends_key(message, k),
    ensures
        key_end_from(message, from) == at,
    decreases at - from,
{
    if from < at {
        lemma_key_end(message, from + 1, at);
    }
}

/// The message that reports a repeated key is read back as that key and
/// that place: a message made of ``duplicate key: ` ``, the key, a backtick
/// and a place that is empty, names a table or gives a position, where no
/// backtick inside the key is followed by the like.
pub proof fn lemma_parse_failure_names_key(key: Seq<char>, place: Seq<char>)
    requires
        place.len() == 0 || holds_at(place, 0, " for key `"@) || holds_at(place, 0, " at line "@),
        forall|k: int|
            duplicate_prefix().len() <= k < duplicate_prefix().len() + key.len() ==> !ends_key(
                crate::error::duplicate_key_text(key) + place,
                k,
            ),
    ensures
        spec_parse_failure(crate::error::duplicate_key_text(key) + place)
            == (ParseErrorView::DuplicateKey { key, place }),
{
    reveal_strlit("`");
    let prefix = duplicate_prefix();
    let tick = "`"@;
    assert(tick.len() == 1 && tick[0] == '`');
    let message = prefix + key + tick + place;
    assert(crate::error::duplicate_key_text(key) + place =~= message);
    let start = prefix.len() as int;
    let at = start + key.len();
    assert(message.subrange(0, start) =~= prefix);
    assert(message[at] == '`');
    assert(message.subrange(at + 1, message.len() as int) =~= place);
    let table = " for key `"@;
    let position = " at line "@;
    if holds_at(place, 0, table) {
        assert(message.subrange(at + 1, at + 1 + table.len()) =~= place.subrange(
            0,
            table.len() as int,
        ));
    }
    if holds_at(place, 0, position) {
        assert(message.subrange(at + 1, at + 1 + position.len()) =~= place.subrange(
            0,
            position.len() as int,
        ));
    }
    assert(ends_key(message, at));
    lemma_key_end(message, start, at);
    assert(message.subrange(start, at) =~= key);
}

/// A key without a backtick is read back from the message that reports it,
/// whatever the place.
pub proof fn lemma_parse_failure_names_plain_key(key: Seq<char>, place: Seq<char>)
    requires
        !key.contains('`'),
        place.len() == 0 || holds_at(place, 0, " for key `"@) || holds_at(place, 0, " at line "@),
    ensures
        spec_parse_failure(crate::error::duplicate_key_text(key) + place)
            == (ParseErrorView::DuplicateKey { key, place }),
{
    reveal_strlit("`");
    let prefix = duplicate_prefix();
    let tick = "`"@;
    let message = crate::error::duplicate_key_text(key) + place;
    assert forall|k: int| prefix.len() <= k < prefix.len() + key.len() implies !ends_key(
        message,
        k,
    ) by {
        assert(message =~= prefix + key + tick + place);
        assert(message[k] == key[k - prefix.len()]);
        if key[k - prefix.len()] == '`' {
            assert(key.contains('`'));
        }
    }
    lemma_parse_failure_names_key(key, place);
}

/// Nothing of the parser's message is lost: the message of the failure
/// that is read off a message is that message.
pub proof fn lemma_parse_failure_keeps_message(message: Seq<char>)
    ensures
        spec_parse_failure(message).message() == message,
{
    reveal_strlit("`");
    let prefix = duplicate_prefix();
    let start = prefix.len() as int;
    let end = key_end_from(message, start);
    if holds_at(message, 0, prefix) && end < message.len() {
        lemma_key_end_is_tick(message, start);
        let tick = "`"@;
        assert(tick.len() == 1 && tick[0] == '`');
        assert(message.subrange(0, start) == prefix);
        assert(prefix + message.subrange(start, end) + tick + message.subrange(
            end + 1,
            message.len() as int,
        ) =~= message);
    }
}

/// Where a key ends, there is a backtick, at or after the start.
pub proof fn lemma_key_end_is_tick(message: Seq<char>, from: int)
    requires
        0 <= from <= message.len(),
    ensures
        from <= key_end_from(message, from),
        key_end_from(message, from) < message.len() ==> message[key_end_from(message, from)] == '`',
    decreases message.len() - from,
{
    if from < message.len() && !ends_key(message, from) {
        lemma_key_end_is_tick(message, from + 1);
    }
}

/// Whether a document nests no deeper than `limit`. Looks no deeper than
/// `limit` levels itself.
pub fn depth_within(value: &TomlValue, limit: usize) -> (within: bool)
    ensures
        within == (value@.depth() <= limit),
    decreases value,
{
    match value {
        TomlValue::Array(items) => {
            proof {
                lemma_array_view(*items);
            }
            if limit == 0 {
                return false;
            }
            let mut i: usize = 0;
            while i < items.len()
                invariant
                    i <= items.len(),
                    limit > 0,
                    value is Array,
                    value->Array_0 == items,
                    value@ == TomlView::Array(values_view(items@)),
                    forall|j: int|
                        0 <= j < i ==> (#[trigger] values_view(items@)[j]).depth() <= limit - 1,
                decreases items.len() - i,
            {
                if !depth_within(&items[i], limit - 1) {
                    proof {
                        lemma_depth_of_items(values_view(items@), (limit - 1) as nat);
                        assert(!(values_view(items@)[i as int].depth() <= limit - 1));
                    }
                    return false;
                }
                i += 1;
            }
            proof {
                lemma_depth_of_items(values_view(items@), (limit - 1) as nat);
            }
            true
        },
        TomlValue::Table(entries) => {
            proof {
                lemma_table_view(*entries);
            }
            if limit == 0 {
                return false;
            }
            let mut i: usize = 0;
            while i < entries.len()
                invariant
                    i <= entries.len(),
                    limit > 0,
                    value is Table,
                    value->Table_0 == entries,
                    value@ == TomlView::Table(entries_view(entries@)),
                    forall|j: int|
                        0 <= j < i ==> (#[trigger] entries_view(entries@)[j]).1.depth() <= limit
                            - 1,
                decreases entries.len() - i,
            {
                if !depth_within(&entries[i].1, limit - 1) {
                    proof {
                        lemma_depth_of_entries(entries_view(entries@), (limit - 1) as nat);
                        assert(!(entries_view(entries@)[i as int].1.depth() <= limit - 1));
                    }
                    return false;
                }
                i += 1;
            }
            proof {
                lemma_depth_of_entries(entries_view(entries@), (limit - 1) as nat);
            }
            true
        },
        _ => true,
    }
}

/// Gives the host value for the payload of a date-time table, from what the
/// literal parser made of the payload.
pub fn marker_datetime(parsed: Option<DateTimeValue>) -> (r: Result<HostValue, ParseError>)
    ensures
        decoded(r) == marker_outcome(parsed),
{
    match parsed {
        Some(d) => parse(&d),
        None => Err(ParseError::InvalidDatetime),
    }
}

/// The walker: holds the null surrogate, if one is set.
pub struct PyDeserializer<'a> {
    pub none_value: Option<&'a str>,
}

impl<'a> PyDeserializer<'a> {
    /// The null surrogate of this walker.
    pub open spec fn none(&self) -> Option<Seq<char>> {
        opt_slice_view(self.none_value)
    }

    /// A walker with the null surrogate `none_value`.
    pub fn new(none_value: Option<&'a str>) -> (walker: Self)
        ensures
            walker.none() == opt_slice_view(none_value),
    {
        PyDeserializer { none_value }
    }

    /// Walks a document and gives the host value for it.
    ///
    /// Fails with `TooDeep` where the document nests deeper than `MAX_DEPTH`.
    /// Otherwise fails exactly where an entry or an item fails: with
    /// `DuplicateKey` at the first key that its table holds for the second
    /// time, with `InvalidDatetime` at the first date-time that is incomplete
    /// or does not exist.
    pub fn deserialize(&self, value: &TomlValue) -> (r: Result<HostValue, ParseError>)
        ensures
            decoded(r) == spec_deserialize(value@, self.none()),
    {
        if !depth_within(value, MAX_DEPTH) {
            return Err(ParseError::TooDeep);
        }
        self.visit(value)
    }

    /// Gives the host value for one node and all below it. Asked only for
    /// a node that nests no deeper than `MAX_DEPTH`, so that the walk goes no
    /// deeper either.
    pub fn visit(&self, value: &TomlValue) -> (r: Result<HostValue, ParseError>)
        requires
            value@.depth() <= MAX_DEPTH,
        ensures
            decoded(r) == spec_decode(value@, self.none()),
        decreases value,
    {
        match value {
            TomlValue::String(s) => Ok(self.visit_str(s.as_str())),
            TomlValue::Integer(i) => Ok(self.visit_i64(*i)),
            TomlValue::Float(f) => Ok(self.visit_f64(f.duplicate())),
            TomlValue::Boolean(b) => Ok(self.visit_bool(*b)),
            TomlValue::Datetime(d) => parse(d),
            TomlValue::Array(items) => {
                proof {
                    lemma_array_view(*items);
                }
                self.visit_seq(items)
            },
            TomlValue::Table(entries) => {
                proof {
                    lemma_table_view(*entries);
                }
                self.visit_map(entries)
            },
        }
    }

    /// A boolean of the document is a boolean of the host.
    pub fn visit_bool(&self, value: bool) -> (h: HostValue)
        ensures
            h@ == HostView::Bool(value),
    {
        HostValue::Bool(value)
    }

    /// An integer of the document is an integer of the host.
    pub fn visit_i64(&self, value: i64) -> (h: HostValue)
        ensures
            h@ == HostView::Int(value),
    {
        HostValue::Int(value)
    }

    /// A float of the document is a float of the host.
    pub fn visit_f64(&self, value: Float) -> (h: HostValue)
        ensures
            h@ == HostView::Float(value),
    {
        HostValue::Float(value)
    }

    /// A string of the document is the host's null where it is equal to the
    /// surrogate, and a string of the host otherwise.
    pub fn visit_str(&self, value: &str) -> (h: HostValue)
        ensures
            h@ == decode_str(value@, self.none()),
    {
        let text = String::from_str(value);
        match self.none_value {
            Some(none_value) => {
                let surrogate = String::from_str(none_value);
                if text == surrogate {
                    HostValue::Null
                } else {
                    HostValue::Str(text)
                }
            },
            None => HostValue::Str(text),
        }
    }

    /// The document's absent value is the host's null.
    pub fn visit_unit(&self) -> (h: HostValue)
        ensures
            h@ == HostView::Null,
    {
        HostValue::Null
    }

    /// Gives the list for the items of an array, in order. Asked only for
    /// items that nest less deep than `MAX_DEPTH`.
    pub fn visit_seq(&self, items: &Vec<TomlValue>) -> (r: Result<HostValue, ParseError>)
        requires
            depth_of_items(values_view(items@)) < MAX_DEPTH,
        ensures
            decoded(r) == (match decode_items(values_view(items@), self.none()) {
                Ok(hosts) => Ok::<HostView, ParseErrorView>(HostView::List(hosts)),
                Err(e) => Err(e),
            }),
        decreases items,
    {
        let ghost all = values_view(items@);
        let mut elements: Vec<HostValue> = Vec::new();
        let mut i: usize = 0;
        proof {
            assert(all.take(0) =~= Seq::<TomlView>::empty());
            assert(hosts_view(elements@) =~= Seq::<HostView>::empty());
        }
        while i < items.len()
            invariant
                i <= items.len(),
                all == values_view(items@),
                depth_of_items(all) < MAX_DEPTH,
                decode_items(all.take(i as int), self.none()) == Ok::<
                    Seq<HostView>,
                    ParseErrorView,
                >(hosts_view(elements@)),
            decreases items.len() - i,
        {
            proof {
                assert(all.take(i + 1).drop_last() =~= all.take(i as int));
                assert(all.take(i + 1).last() == items@[i as int]@);
                lemma_depth_of_items(all, (MAX_DEPTH - 1) as nat);
                assert(all[i as int].depth() <= MAX_DEPTH - 1);
            }
            match self.visit(&items[i]) {
                Ok(h) => {
                    proof {
                        assert(hosts_view(elements@.push(h)) =~= hosts_view(elements@).push(h@));
                    }
                    elements.push(h);
                },
                Err(e) => {
                    proof {
                        lemma_items_error_stays(all, self.none(), i + 1);
                    }
                    return Err(e);
                },
            }
            i += 1;
        }
        proof {
            assert(all.take(i as int) =~= all);
            lemma_list_view(elements);
        }
        Ok(HostValue::List(elements))
    }

    /// Gives the host value for a table: a mapping of its entries in order,
    /// or the date-time that the table stands for. Asked only for entries
    /// whose values nest less deep than `MAX_DEPTH`.
    pub fn visit_map(&self, entries: &Vec<(String, TomlValue)>) -> (r: Result<
        HostValue,
        ParseError,
    >)
        requires
            depth_of_entries(entries_view(entries@)) < MAX_DEPTH,
        ensures
            decoded(r) == decode_table(entries_view(entries@), self.none()),
        decreases entries,
    {
        let ghost all = entries_view(entries@);
        if entries.len() == 0 {
            let empty: Vec<(HostKey, HostValue)> = Vec::new();
            proof {
                lemma_dict_view(empty);
                assert(pairs_view(empty@) =~= Seq::<(HostKeyView, HostView)>::empty());
            }
            return Ok(HostValue::Dict(empty));
        }
        assert(all[0] == (entries@[0].0@, entries@[0].1@));
        proof {
            lemma_depth_of_entries(all, (MAX_DEPTH - 1) as nat);
            assert(all[0].1.depth() <= MAX_DEPTH - 1);
        }
        let first_value = match self.visit(&entries[0].1) {
            Ok(h) => h,
            Err(e) => {
                return Err(e);
            },
        };
        let marker = String::from_str(DATETIME_MAPPING_KEY);
        if entries[0].0 == marker {
            return match first_value {
                HostValue::Str(literal) => marker_datetime(parse_datetime_literal(literal.as_str())),
                _ => Err(ParseError::InvalidDatetime),
            };
        }
        let mut key_set = StringHashSet::new();
        key_set.insert(entries[0].0.clone());
        let mut pairs: Vec<(HostKey, HostValue)> = Vec::new();
        pairs.push((HostKey::Str(entries[0].0.clone()), first_value));
        proof {
            lemma_entries_first(all, self.none());
            assert(pairs_view(pairs@) =~= seq![(HostKeyView::Str(all[0].0), first_value@)]);
            assert(keys_of(all.take(1)) =~= seq![all[0].0]);
            assert forall|k: Seq<char>| key_set@.contains(k) <==> keys_of(all.take(1)).contains(
                k,
            ) by {
                if k == all[0].0 {
                    assert(keys_of(all.take(1))[0] == k);
                }
            }
        }
        let mut i: usize = 1;
        while i < entries.len()
            invariant
                1 <= i <= entries.len(),
                all == entries_view(entries@),
                depth_of_entries(all) < MAX_DEPTH,
                spec_decode(all[0].1, self.none()) is Ok,
                all[0].0 != DATETIME_MAPPING_KEY@,
                decode_entries(all.take(i as int), self.none()) == Ok::<
                    Seq<(HostKeyView, HostView)>,
                    ParseErrorView,
                >(pairs_view(pairs@)),
                forall|k: Seq<char>|
                    key_set@.contains(k) <==> keys_of(all.take(i as int)).contains(k),
            decreases entries.len() - i,
        {
            proof {
                assert(all.take(i + 1).drop_last() =~= all.take(i as int));
                assert(all.take(i + 1).last() == (entries@[i as int].0@, entries@[i as int].1@));
                lemma_depth_of_entries(all, (MAX_DEPTH - 1) as nat);
                assert(all[i as int].1.depth() <= MAX_DEPTH - 1);
            }
            let value = match self.visit(&entries[i].1) {
                Ok(h) => h,
                Err(e) => {
                    proof {
                        lemma_entries_error_stays(all, self.none(), i + 1);
                    }
                    return Err(e);
                },
            };
            if !key_set.insert(entries[i].0.clone()) {
                proof {
                    lemma_entries_error_stays(all, self.none(), i + 1);
                }
                return Err(
                    ParseError::DuplicateKey { key: entries[i].0.clone(), place: String::new() },
                );
            }
            proof {
                let key = HostKey::Str(entries@[i as int].0);
                assert(pairs_view(pairs@.push((key, value))) =~= pairs_view(pairs@).push(
                    (HostKeyView::Str(all[i as int].0), value@),
                ));
                let before = keys_of(all.take(i as int));
                let after = keys_of(all.take(i + 1));
                assert(after =~= before.push(all[i as int].0));
                assert forall|k: Seq<char>| key_set@.contains(k) <==> after.contains(k) by {
                    if before.contains(k) {
                        let j = choose|j: int| 0 <= j < before.len() && before[j] == k;
                        assert(after[j] == k);
                    }
                    if k == all[i as int].0 {
                        assert(after[i as int] == k);
                    }
                }
            }
            pairs.push((HostKey::Str(entries[i].0.clone()), value));
            i += 1;
        }
        proof {
            assert(all.take(i as int) =~= all);
            lemma_dict_view(pairs);
        }
        Ok(HostValue::Dict(pairs))
    }
}

} // verus!
