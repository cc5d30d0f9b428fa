//! From a host value to a TOML document.
//!
//! Each node is told by its kind. A mapping is written in three passes over
//! its entries: first those whose value is neither a sequence nor a mapping,
//! then those whose value is a list or a tuple, then those whose value is a
//! mapping. Within a pass the entries keep their order. Without a null
//! surrogate a null item of a sequence and an entry with a null value are
//! left out; with one, null is written as the surrogate.

use vstd::hash_set::StringHashSet;
use vstd::prelude::*;
use vstd::string::StringExecFns;
use crate::datetime::{
    date_value, datetime_value, spec_date_value, spec_datetime_value, spec_time_value, time_value,
};
use crate::error::{describe, described, SerializeError, SerializeErrorView};
use crate::host::{
    depth_of_hosts, depth_of_pairs, hosts_view, lemma_depth_of_hosts, lemma_depth_of_pairs,
    lemma_dict_view, lemma_list_view, lemma_tuple_view, opt_slice_view, pairs_view, HostKey,
    HostKeyView, HostValue, HostView,
};
use crate::py_type::{class_name, class_name_of, classify, kind_of_view, Kind};
use crate::value::{
    entries_view, keys_of, lemma_array_view, lemma_depth_of_entries, lemma_depth_of_items,
    lemma_table_view, values_view, TomlValue, TomlView, MAX_DEPTH,
};

verus! {

/// The model of what an encoding hands back.
pub open spec fn encoded(r: Result<TomlValue, SerializeError>) -> Result<
    TomlView,
    SerializeErrorView,
> {
    match r {
        Ok(v) => Ok(v@),
        Err(e) => Err(e@),
    }
}

/// The model of what the encoding of a key hands back.
pub open spec fn key_encoded(r: Result<String, SerializeError>) -> Result<
    Seq<char>,
    SerializeErrorView,
> {
    match r {
        Ok(k) => Ok(k@),
        Err(e) => Err(e@),
    }
}

/// How null is written: as the surrogate, or as `null` where none is set.
pub open spec fn null_text(none: Option<Seq<char>>) -> Seq<char> {
    match none {
        Some(s) => s,
        None => "null"@,
    }
}

/// How a key is named in a message: by its printed form and the name of
/// its type. A key of another type carries both; a string is shown as its
/// text, a boolean and null as the host prints them.
pub open spec fn described_key(key: HostKeyView) -> Seq<char> {
    match key {
        HostKeyView::Str(s) => described(class_name_of(Kind::Str), Some(s)),
        HostKeyView::Bool(b) => described(
            class_name_of(Kind::Bool),
            Some(
                if b {
                    "True"@
                } else {
                    "False"@
                },
            ),
        ),
        HostKeyView::Null => described(class_name_of(Kind::Null), Some("None"@)),
        HostKeyView::Other { class_name, repr } => described(class_name, repr),
    }
}

/// The text of a mapping key: a string as it is, a boolean as `true` or
/// `false`, null as the surrogate. A key of any other type, and null
/// without a surrogate, is `UnserializableKey` with the key's description:
/// it is never turned into text.
pub open spec fn spec_table_key(key: HostKeyView, none: Option<Seq<char>>) -> Result<
    Seq<char>,
    SerializeErrorView,
> {
    match key {
        HostKeyView::Str(s) => Ok(s),
        HostKeyView::Bool(b) => Ok(
            if b {
                "true"@
            } else {
                "false"@
            },
        ),
        HostKeyView::Null => match none {
            Some(s) => Ok(s),
            None => Err(SerializeErrorView::UnserializableKey(described_key(key))),
        },
        HostKeyView::Other { .. } => Err(
            SerializeErrorView::UnserializableKey(described_key(key)),
        ),
    }
}

/// Whether an item or the value of an entry is written at all: always with a
/// surrogate, and unless it is null without one.
pub open spec fn is_kept(value: HostView, none: Option<Seq<char>>) -> bool {
    none is Some || !(value is Null)
}

/// The pass in which an entry is written, by the kind of its value: 2 for a
/// mapping, 1 for a list or a tuple, 0 for anything else.
pub open spec fn bucket_of(value: HostView) -> int {
    match value {
        HostView::Dict(_) => 2,
        HostView::List(_) => 1,
        HostView::Tuple(_) => 1,
        _ => 0,
    }
}

/// The array that a byte string is written as: one integer for each byte.
pub open spec fn bytes_array(bytes: Seq<u8>) -> Seq<TomlView> {
    Seq::new(bytes.len(), |i: int| TomlView::Integer(bytes[i] as i64))
}

/// What a host value is written as.
///
/// Null is a string. Integers, floats, booleans and strings keep their
/// value. A byte string is an array of integers. A list or a tuple is an
/// array of its kept items in order. A mapping is a table of its kept
/// entries, in three passes. A date-time, a date or a time is a TOML
/// date-time, or `InvalidDatetime` where it does not exist. A value of an
/// unknown type is `UnserializableType` with the name of the type. In a
/// sequence or a mapping the first item or entry that fails, in the order of
/// writing, decides the error.
pub open spec fn spec_encode(h: HostView, none: Option<Seq<char>>) -> Result<
    TomlView,
    SerializeErrorView,
>
    decreases h, 0int,
{
    match h {
        HostView::Null => Ok(TomlView::String(null_text(none))),
        HostView::Bool(b) => Ok(TomlView::Boolean(b)),
        HostView::Int(i) => Ok(TomlView::Integer(i)),
        HostView::Float(f) => Ok(TomlView::Float(f)),
        HostView::Str(s) => Ok(TomlView::String(s)),
        HostView::Bytes(b) => Ok(TomlView::Array(bytes_array(b))),
        HostView::List(items) => match encode_items(items, none) {
            Ok(values) => Ok(TomlView::Array(values)),
            Err(e) => Err(e),
        },
        HostView::Tuple(items) => match encode_items(items, none) {
            Ok(values) => Ok(TomlView::Array(values)),
            Err(e) => Err(e),
        },
        HostView::Dict(entries) => match encode_pass(entries, none, 0, Seq::empty()) {
            Err(e) => Err(e),
            Ok(simple) => match encode_pass(entries, none, 1, simple) {
                Err(e) => Err(e),
                Ok(arrays) => match encode_pass(entries, none, 2, arrays) {
                    Err(e) => Err(e),
                    Ok(all) => Ok(TomlView::Table(all)),
                },
            },
        },
        HostView::DateTime(dt) => match spec_datetime_value(dt) {
            Some(d) => Ok(TomlView::Datetime(d)),
            None => Err(SerializeErrorView::InvalidDatetime),
        },
        HostView::Date(date) => match spec_date_value(date) {
            Some(d) => Ok(TomlView::Datetime(d)),
            None => Err(SerializeErrorView::InvalidDatetime),
        },
        HostView::Time(time) => match spec_time_value(time) {
            Some(d) => Ok(TomlView::Datetime(d)),
            None => Err(SerializeErrorView::InvalidDatetime),
        },
        HostView::Other { class_name, repr } => Err(
            SerializeErrorView::UnserializableType { class_name, repr },
        ),
    }
}

/// What the items of a sequence are written as: the kept items in order, or
/// the error of the first kept item that fails.
pub open spec fn encode_items(items: Seq<HostView>, none: Option<Seq<char>>) -> Result<
    Seq<TomlView>,
    SerializeErrorView,
>
    decreases items, 0int,
{
    if items.len() == 0 {
        Ok(Seq::empty())
    } else {
        match encode_items(items.drop_last(), none) {
            Err(e) => Err(e),
            Ok(values) => if !is_kept(items.last(), none) {
                Ok(values)
            } else {
                match spec_encode(items.last(), none) {
                    Err(e) => Err(e),
                    Ok(v) => Ok(values.push(v)),
                }
            },
        }
    }
}

/// One pass over the entries of a mapping: what stands in the table after
/// it, given what stood there before.
///
/// An entry is written in this pass if its value is kept and belongs to the
/// pass. Of such an entry the key is turned into text first, then the value
/// is written, then the key is held against the keys already in the table:
/// a key that is there already is `DuplicateKey`. The first entry that
/// fails decides the error.
pub open spec fn encode_pass(
    entries: Seq<(HostKeyView, HostView)>,
    none: Option<Seq<char>>,
    bucket: int,
    start: Seq<(Seq<char>, TomlView)>,
) -> Result<Seq<(Seq<char>, TomlView)>, SerializeErrorView>
    decreases entries, 0int,
{
    if entries.len() == 0 {
        Ok(start)
    } else {
        match encode_pass(entries.drop_last(), none, bucket, start) {
            Err(e) => Err(e),
            Ok(done) => {
                let entry = entries.last();
                if !(is_kept(entry.1, none) && bucket_of(entry.1) == bucket) {
                    Ok(done)
                } else {
                    match spec_table_key(entry.0, none) {
                        Err(e) => Err(e),
                        Ok(key) => match spec_encode(entry.1, none) {
                            Err(e) => Err(e),
                            Ok(v) => if keys_of(done).contains(key) {
                                Err(SerializeErrorView::DuplicateKey(key))
                            } else {
                                Ok(done.push((key, v)))
                            },
                        },
                    }
                }
            },
        }
    }
}

/// An error among the first `k` items is the error of the whole run.
pub proof fn lemma_encode_items_error_stays(items: Seq<HostView>, none: Option<Seq<char>>, k: int)
    requires
        0 <= k <= items.len(),
        encode_items(items.take(k), none) is Err,
    ensures
        encode_items(items, none) == encode_items(items.take(k), none),
    decreases items.len() - k,
{
    if k < items.len() {
        assert(items.take(k + 1).drop_last() =~= items.take(k));
        lemma_encode_items_error_stays(items, none, k + 1);
    } else {
        assert(items.take(k) =~= items);
    }
}

/// An error among the first `k` entries of a pass is the error of the whole
/// pass.
pub proof fn lemma_encode_pass_error_stays(
    entries: Seq<(HostKeyView, HostView)>,
    none: Option<Seq<char>>,
    bucket: int,
    start: Seq<(Seq<char>, TomlView)>,
    k: int,
)
    requires
        0 <= k <= entries.len(),
        encode_pass(entries.take(k), none, bucket, start) is Err,
    ensures
        encode_pass(entries, none, bucket, start) == encode_pass(
            entries.take(k),
            none,
            bucket,
            start,
        ),
    decreases entries.len() - k,
{
    if k < entries.len() {
        assert(entries.take(k + 1).drop_last() =~= entries.take(k));
        lemma_encode_pass_error_stays(entries, none, bucket, start, k + 1);
    } else {
        assert(entries.take(k) =~= entries);
    }
}

/// What the items of a sequence are written as holds no table with a
/// repeated key, and nests at most one level deeper than the items do.
pub proof fn lemma_encode_items_shape(items: Seq<HostView>, none: Option<Seq<char>>, n: nat)
    requires
        forall|i: int| 0 <= i < items.len() ==> (#[trigger] items[i]).depth() <= n,
    ensures
        encode_items(items, none) matches Ok(values) ==> forall|j: int|
            0 <= j < values.len() ==> (#[trigger] values[j]).keys_unique() && values[j].depth()
                <= n + 1,
    decreases items, 0int,
{
    if items.len() > 0 {
        let rest = items.drop_last();
        assert forall|i: int| 0 <= i < rest.len() implies (#[trigger] rest[i]).depth() <= n by {
            assert(rest[i] == items[i]);
        }
        lemma_encode_items_shape(rest, none, n);
        if is_kept(items.last(), none) {
            lemma_encode_shape(items.last(), none);
        }
    }
}

/// What stands in a table after a pass holds no key twice, holds no table
/// with a repeated key, and nests at most one level deeper than the values
/// of the entries do, if that was so of what stood there before.
pub proof fn lemma_encode_pass_shape(
    entries: Seq<(HostKeyView, HostView)>,
    none: Option<Seq<char>>,
    bucket: int,
    start: Seq<(Seq<char>, TomlView)>,
    n: nat,
)
    requires
        keys_of(start).no_duplicates(),
        forall|j: int|
            0 <= j < start.len() ==> (#[trigger] start[j]).1.keys_unique() && start[j].1.depth()
                <= n + 1,
        forall|i: int| 0 <= i < entries.len() ==> (#[trigger] entries[i]).1.depth() <= n,
    ensures
        encode_pass(entries, none, bucket, start) matches Ok(done) ==> {
            &&& keys_of(done).no_duplicates()
            &&& forall|j: int|
                0 <= j < done.len() ==> (#[trigger] done[j]).1.keys_unique() && done[j].1.depth()
                    <= n + 1
        },
    decreases entries, 0int,
{
    if entries.len() > 0 {
        let rest = entries.drop_last();
        assert forall|i: int| 0 <= i < rest.len() implies (#[trigger] rest[i]).1.depth() <= n by {
            assert(rest[i] == entries[i]);
        }
        lemma_encode_pass_shape(rest, none, bucket, start, n);
        let entry = entries.last();
        if is_kept(entry.1, none) && bucket_of(entry.1) == bucket {
            lemma_encode_shape(entry.1, none);
            if let Ok(prev) = encode_pass(rest, none, bucket, start) {
                if let Ok(done) = encode_pass(entries, none, bucket, start) {
                    let key = spec_table_key(entry.0, none)->Ok_0;
                    assert(keys_of(done) =~= keys_of(prev).push(key));
                    assert forall|j: int| 0 <= j < done.len() implies (#[trigger] done[j]).1.keys_unique()
                        && done[j].1.depth() <= n + 1 by {
                        if j < prev.len() {
                            assert(done[j] == prev[j]);
                        }
                    }
                }
            }
        }
    }
}

/// What a host value is written as holds no table with a repeated key, and
/// nests at most one level deeper than the host value does.
pub proof fn lemma_encode_shape(h: HostView, none: Option<Seq<char>>)
    ensures
        spec_encode(h, none) matches Ok(v) ==> v.keys_unique() && v.depth() <= h.depth() + 1,
    decreases h, 0int,
{
    match h {
        HostView::Bytes(b) => {
            let values = bytes_array(b);
            assert forall|i: int| 0 <= i < values.len() implies (#[trigger] values[i]).depth()
                <= 0 && values[i].keys_unique() by {
                assert(values[i] == TomlView::Integer(b[i] as i64));
            }
            lemma_depth_of_items(values, 0);
        },
        HostView::List(items) => {
            let m = depth_of_hosts(items);
            lemma_depth_of_hosts(items, m);
            lemma_encode_items_shape(items, none, m);
            if let Ok(values) = encode_items(items, none) {
                lemma_depth_of_items(values, m + 1);
            }
        },
        HostView::Tuple(items) => {
            let m = depth_of_hosts(items);
            lemma_depth_of_hosts(items, m);
            lemma_encode_items_shape(items, none, m);
            if let Ok(values) = encode_items(items, none) {
                lemma_depth_of_items(values, m + 1);
            }
        },
        HostView::Dict(entries) => {
            let m = depth_of_pairs(entries);
            lemma_depth_of_pairs(entries, m);
            let empty = Seq::<(Seq<char>, TomlView)>::empty();
            assert(keys_of(empty) =~= Seq::<Seq<char>>::empty());
            lemma_encode_pass_shape(entries, none, 0, empty, m);
            if let Ok(simple) = encode_pass(entries, none, 0, empty) {
                lemma_encode_pass_shape(entries, none, 1, simple, m);
                if let Ok(arrays) = encode_pass(entries, none, 1, simple) {
                    lemma_encode_pass_shape(entries, none, 2, arrays, m);
                    if let Ok(all) = encode_pass(entries, none, 2, arrays) {
                        lemma_depth_of_entries(all, m + 1);
                    }
                }
            }
        },
        _ => {},
    }
}

/// The entries of a mapping that one pass writes: those whose value is kept
/// and belongs to the pass, in the order in which the mapping holds them.
pub open spec fn written_in_pass(
    entries: Seq<(HostKeyView, HostView)>,
    none: Option<Seq<char>>,
    bucket: int,
) -> Seq<(HostKeyView, HostView)>
    decreases entries.len(),
{
    if entries.len() == 0 {
        Seq::empty()
    } else {
        let rest = written_in_pass(entries.drop_last(), none, bucket);
        let entry = entries.last();
        if is_kept(entry.1, none) && bucket_of(entry.1) == bucket {
            rest.push(entry)
        } else {
            rest
        }
    }
}

/// The entries of a mapping in the order in which they are written: the
/// three passes one after the other.
pub open spec fn grouped(entries: Seq<(HostKeyView, HostView)>, none: Option<Seq<char>>) -> Seq<
    (HostKeyView, HostView),
> {
    written_in_pass(entries, none, 0) + written_in_pass(entries, none, 1) + written_in_pass(
        entries,
        none,
        2,
    )
}

/// Every entry that a pass writes is an entry of the mapping, is kept, and
/// belongs to the pass; and the pass keeps the order of the mapping.
pub proof fn lemma_written_in_pass(
    entries: Seq<(HostKeyView, HostView)>,
    none: Option<Seq<char>>,
    bucket: int,
)
    ensures
        written_in_pass(entries, none, bucket).len() <= entries.len(),
        forall|j: int|
            0 <= j < written_in_pass(entries, none, bucket).len() ==> {
                let entry = #[trigger] written_in_pass(entries, none, bucket)[j];
                &&& entries.contains(entry)
                &&& is_kept(entry.1, none)
                &&& bucket_of(entry.1) == bucket
            },
    decreases entries.len(),
{
    if entries.len() > 0 {
        let rest = entries.drop_last();
        lemma_written_in_pass(rest, none, bucket);
        let sel = written_in_pass(entries, none, bucket);
        let before = written_in_pass(rest, none, bucket);
        assert forall|j: int| 0 <= j < sel.len() implies {
            let entry = #[trigger] sel[j];
            &&& entries.contains(entry)
            &&& is_kept(entry.1, none)
            &&& bucket_of(entry.1) == bucket
        } by {
            if j < before.len() {
                assert(sel[j] == before[j]);
                let i = choose|i: int| 0 <= i < rest.len() && rest[i] == before[j];
                assert(entries[i] == sel[j]);
            } else {
                assert(sel[j] == entries.last());
                assert(entries[entries.len() - 1] == sel[j]);
            }
        }
    }
}

/// What a pass adds to the table is, entry for entry, the key text and the
/// written value of the entries that the pass writes, behind what stood in
/// the table before.
pub proof fn lemma_encode_pass_entries(
    entries: Seq<(HostKeyView, HostView)>,
    none: Option<Seq<char>>,
    bucket: int,
    start: Seq<(Seq<char>, TomlView)>,
)
    ensures
        encode_pass(entries, none, bucket, start) matches Ok(done) ==> {
            let sel = written_in_pass(entries, none, bucket);
            &&& done.len() == start.len() + sel.len()
            &&& forall|j: int| 0 <= j < start.len() ==> #[trigger] done[j] == start[j]
            &&& forall|j: int|
                0 <= j < sel.len() ==> {
                    &&& spec_table_key((#[trigger] sel[j]).0, none) == Ok::<
                        Seq<char>,
                        SerializeErrorView,
                    >(done[start.len() + j].0)
                    &&& spec_encode(sel[j].1, none) == Ok::<TomlView, SerializeErrorView>(
                        done[start.len() + j].1,
                    )
                }
        },
    decreases entries.len(),
{
    if entries.len() > 0 {
        let rest = entries.drop_last();
        lemma_encode_pass_entries(rest, none, bucket, start);
        if let Ok(done) = encode_pass(entries, none, bucket, start) {
            let prev = encode_pass(rest, none, bucket, start)->Ok_0;
            let sel = written_in_pass(entries, none, bucket);
            let before = written_in_pass(rest, none, bucket);
            let entry = entries.last();
            if is_kept(entry.1, none) && bucket_of(entry.1) == bucket {
                assert forall|j: int| 0 <= j < sel.len() implies {
                    &&& spec_table_key((#[trigger] sel[j]).0, none) == Ok::<
                        Seq<char>,
                        SerializeErrorView,
                    >(done[start.len() + j].0)
                    &&& spec_encode(sel[j].1, none) == Ok::<TomlView, SerializeErrorView>(
                        done[start.len() + j].1,
                    )
                } by {
                    if j < before.len() {
                        assert(sel[j] == before[j]);
                        assert(done[start.len() + j] == prev[start.len() + j]);
                    }
                }
                assert forall|j: int| 0 <= j < start.len() implies #[trigger] done[j]
                    == start[j] by {
                    assert(done[j] == prev[j]);
                }
            }
        }
    }
}

/// Key grouping. Where a mapping is written, the table holds exactly the
/// kept entries of the mapping, each once, in this order: first those whose
/// value is neither a sequence nor a mapping, then those whose value is a
/// list or a tuple, then those whose value is a mapping, and within each
/// group in the order of the mapping. The key of each is the text of the
/// entry's key, and the value is what the entry's value is written as.
pub proof fn lemma_key_grouping(entries: Seq<(HostKeyView, HostView)>, none: Option<Seq<char>>)
    ensures
        spec_encode(HostView::Dict(entries), none) matches Ok(document) ==> {
            let order = grouped(entries, none);
            &&& document is Table
            &&& document->Table_0.len() == order.len()
            &&& forall|j: int|
                0 <= j < order.len() ==> {
                    &&& spec_table_key((#[trigger] order[j]).0, none) == Ok::<
                        Seq<char>,
                        SerializeErrorView,
                    >(document->Table_0[j].0)
                    &&& spec_encode(order[j].1, none) == Ok::<TomlView, SerializeErrorView>(
                        document->Table_0[j].1,
                    )
                    &&& entries.contains(order[j])
                    &&& is_kept(order[j].1, none)
                }
            &&& forall|i: int, j: int|
                0 <= i <= j < order.len() ==> bucket_of((#[trigger] order[i]).1) <= bucket_of(
                    (#[trigger] order[j]).1,
                )
        },
{
    let empty = Seq::<(Seq<char>, TomlView)>::empty();
    let a = written_in_pass(entries, none, 0);
    let b = written_in_pass(entries, none, 1);
    let c = written_in_pass(entries, none, 2);
    let order = grouped(entries, none);
    lemma_written_in_pass(entries, none, 0);
    lemma_written_in_pass(entries, none, 1);
    lemma_written_in_pass(entries, none, 2);
    assert forall|j: int| 0 <= j < order.len() implies {
        &&& entries.contains(#[trigger] order[j])
        &&& is_kept(order[j].1, none)
        &&& bucket_of(order[j].1) == if j < a.len() {
            0int
        } else if j < a.len() + b.len() {
            1int
        } else {
            2int
        }
    } by {
        if j < a.len() {
            assert(order[j] == a[j]);
        } else if j < a.len() + b.len() {
            assert(order[j] == b[j - a.len()]);
        } else {
            assert(order[j] == c[j - a.len() - b.len()]);
        }
    }
    lemma_encode_pass_entries(entries, none, 0, empty);
    if let Ok(simple) = encode_pass(entries, none, 0, empty) {
        lemma_encode_pass_entries(entries, none, 1, simple);
        if let Ok(arrays) = encode_pass(entries, none, 1, simple) {
            lemma_encode_pass_entries(entries, none, 2, arrays);
            if let Ok(all) = encode_pass(entries, none, 2, arrays) {
                assert forall|j: int| 0 <= j < order.len() implies {
                    &&& spec_table_key((#[trigger] order[j]).0, none) == Ok::<
                        Seq<char>,
                        SerializeErrorView,
                    >(all[j].0)
                    &&& spec_encode(order[j].1, none) == Ok::<TomlView, SerializeErrorView>(
                        all[j].1,
                    )
                } by {
                    if j < a.len() {
                        assert(order[j] == a[j]);
                        assert(all[j] == arrays[j]);
                        assert(arrays[j] == simple[j]);
                    } else if j < a.len() + b.len() {
                        assert(order[j] == b[j - a.len()]);
                        assert(all[j] == arrays[j]);
                    } else {
                        assert(order[j] == c[j - a.len() - b.len()]);
                    }
                }
            }
        }
    }
}

/// Null without a surrogate. Where no surrogate is set, no entry of a
/// written mapping and no item of a written sequence comes from a null
/// value: the entries written are the entries whose value is not null, and a
/// sequence is written with as many items as it has items that are not null.
pub proof fn lemma_null_is_dropped(h: HostView)
    ensures
        h matches HostView::Dict(entries) ==> forall|j: int|
            0 <= j < grouped(entries, None).len() ==> !((#[trigger] grouped(
                entries,
                None,
            )[j]).1 is Null),
        h matches HostView::List(items) ==> (spec_encode(h, None) matches Ok(
            TomlView::Array(values),
        ) ==> values.len() == items.filter(|x: HostView| !(x is Null)).len()),
{
    match h {
        HostView::Dict(entries) => {
            lemma_key_grouping(entries, None);
            lemma_written_in_pass(entries, None, 0);
            lemma_written_in_pass(entries, None, 1);
            lemma_written_in_pass(entries, None, 2);
            let a = written_in_pass(entries, None, 0);
            let b = written_in_pass(entries, None, 1);
            let c = written_in_pass(entries, None, 2);
            let order = grouped(entries, None);
            assert forall|j: int| 0 <= j < order.len() implies !((#[trigger] order[j]).1
                is Null) by {
                if j < a.len() {
                    assert(order[j] == a[j]);
                } else if j < a.len() + b.len() {
                    assert(order[j] == b[j - a.len()]);
                } else {
                    assert(order[j] == c[j - a.len() - b.len()]);
                }
            }
        },
        HostView::List(items) => {
            lemma_items_without_null(items);
        },
        _ => {},
    }
}

/// Without a surrogate a sequence is written with one item for each of its
/// items that is not null.
pub proof fn lemma_items_without_null(items: Seq<HostView>)
    ensures
        encode_items(items, None) matches Ok(values) ==> values.len() == items.filter(
            |x: HostView| !(x is Null),
        ).len(),
    decreases items.len(),
{
    reveal(Seq::filter);
    if items.len() > 0 {
        lemma_items_without_null(items.drop_last());
    }
}

/// Null with a surrogate. Where a surrogate is set, null is written as the
/// string that is the surrogate, and that string is read back as null.
pub proof fn lemma_null_surrogate(surrogate: Seq<char>)
    ensures
        spec_encode(HostView::Null, Some(surrogate)) == Ok::<TomlView, SerializeErrorView>(
            TomlView::String(surrogate),
        ),
        crate::de::spec_decode(TomlView::String(surrogate), Some(surrogate)) == Ok::<
            HostView,
            crate::error::ParseErrorView,
        >(HostView::Null),
        forall|entries: Seq<(HostKeyView, HostView)>, i: int|
            0 <= i < entries.len() ==> is_kept((#[trigger] entries[i]).1, Some(surrogate)),
{
}

/// A value of an unknown type is never written: whatever the surrogate, the
/// result is `UnserializableType` with the name and the printed form that
/// the value carries.
pub proof fn lemma_unknown_type(h: HostView, none: Option<Seq<char>>)
    requires
        kind_of_view(h) == Kind::Unknown,
    ensures
        h is Other,
        spec_encode(h, none) == Err::<TomlView, SerializeErrorView>(
            SerializeErrorView::UnserializableType { class_name: h->class_name, repr: h->repr },
        ),
        h.depth() == 0,
{
}

/// The description of a key for a message.
pub fn any_repr(key: &HostKey) -> (text: String)
    ensures
        text@ == described_key(key@),
{
    match key {
        HostKey::Str(s) => describe(class_name(Kind::Str), Some(s.as_str())),
        HostKey::Bool(b) => {
            if *b {
                describe(class_name(Kind::Bool), Some("True"))
            } else {
                describe(class_name(Kind::Bool), Some("False"))
            }
        },
        HostKey::Null => describe(class_name(Kind::Null), Some("None")),
        HostKey::Other { class_name: name, repr } => match repr {
            Some(r) => describe(name.as_str(), Some(r.as_str())),
            None => describe(name.as_str(), None),
        },
    }
}

/// Turns a key of a mapping into the text of a table key.
///
/// A string is taken as it is, a boolean becomes `true` or `false`, null
/// becomes the surrogate. Fails with `UnserializableKey` for a key of any
/// other type, and for null where no surrogate is set; the error shows the
/// key's printed form and the name of its type.
pub fn table_key(key: &HostKey, none_value: Option<&str>) -> (r: Result<String, SerializeError>)
    ensures
        key_encoded(r) == spec_table_key(key@, opt_slice_view(none_value)),
{
    match key {
        HostKey::Str(s) => Ok(s.clone()),
        HostKey::Bool(b) => {
            if *b {
                Ok(String::from_str("true"))
            } else {
                Ok(String::from_str("false"))
            }
        },
        HostKey::Null => match none_value {
            Some(s) => Ok(String::from_str(s)),
            None => Err(SerializeError::UnserializableKey(any_repr(key))),
        },
        HostKey::Other { .. } => Err(SerializeError::UnserializableKey(any_repr(key))),
    }
}

/// The pass of an entry whose value has the kind `kind`.
pub fn bucket(kind: Kind) -> (b: u8)
    ensures
        b == match kind {
            Kind::Dict => 2int,
            Kind::List => 1int,
            Kind::Tuple => 1int,
            _ => 0int,
        },
{
    match kind {
        Kind::Dict => 2,
        Kind::List => 1,
        Kind::Tuple => 1,
        _ => 0,
    }
}

/// Whether a host value nests no deeper than `limit`. Looks no deeper than
/// `limit` levels itself.
pub fn host_depth_within(value: &HostValue, limit: usize) -> (within: bool)
    ensures
        within == (value@.depth() <= limit),
    decreases value,
{
    match value {
        HostValue::List(items) => {
            proof {
                lemma_list_view(*items);
            }
            hosts_depth_within(items, limit)
        },
        HostValue::Tuple(items) => {
            proof {
                lemma_tuple_view(*items);
            }
            hosts_depth_within(items, limit)
        },
        HostValue::Dict(entries) => {
            proof {
                lemma_dict_view(*entries);
            }
            if limit == 0 {
                return false;
            }
            let mut i: usize = 0;
            while i < entries.len()
                invariant
                    i <= entries.len(),
                    limit > 0,
                    value is Dict,
                    value->Dict_0 == entries,
                    value@ == HostView::Dict(pairs_view(entries@)),
                    forall|j: int|
                        0 <= j < i ==> (#[trigger] pairs_view(entries@)[j]).1.depth() <= limit - 1,
                decreases entries.len() - i,
            {
                if !host_depth_within(&entries[i].1, limit - 1) {
                    proof {
                        lemma_depth_of_pairs(pairs_view(entries@), (limit - 1) as nat);
                        assert(!(pairs_view(entries@)[i as int].1.depth() <= limit - 1));
                    }
                    return false;
                }
                i += 1;
            }
            proof {
                lemma_depth_of_pairs(pairs_view(entries@), (limit - 1) as nat);
            }
            true
        },
        _ => true,
    }
}

/// Whether a sequence of `items` nests no deeper than `limit`, the sequence
/// itself counted.
fn hosts_depth_within(items: &Vec<HostValue>, limit: usize) -> (within: bool)
    ensures
        within == (1 + depth_of_hosts(hosts_view(items@)) <= limit),
    decreases items,
{
    if limit == 0 {
        return false;
    }
    let mut i: usize = 0;
    while i < items.len()
        invariant
            i <= items.len(),
            limit > 0,
            forall|j: int| 0 <= j < i ==> (#[trigger] hosts_view(items@)[j]).depth() <= limit - 1,
        decreases items.len() - i,
    {
        if !host_depth_within(&items[i], limit - 1) {
            proof {
                lemma_depth_of_hosts(hosts_view(items@), (limit - 1) as nat);
                assert(!(hosts_view(items@)[i as int].depth() <= limit - 1));
            }
            return false;
        }
        i += 1;
    }
    proof {
        lemma_depth_of_hosts(hosts_view(items@), (limit - 1) as nat);
    }
    true
}

/// The writer of one host value: holds the value and the null surrogate, if
/// one is set.
pub struct SerializePyObject<'a> {
    pub obj: &'a HostValue,
    pub none_value: Option<&'a str>,
}

impl<'a> SerializePyObject<'a> {
    /// The value that this writer writes.
    pub open spec fn value(&self) -> HostView {
        self.obj@
    }

    /// The null surrogate of this writer.
    pub open spec fn none(&self) -> Option<Seq<char>> {
        opt_slice_view(self.none_value)
    }

    /// A writer of `obj` with the null surrogate `none_value`.
    pub fn new(obj: &'a HostValue, none_value: Option<&'a str>) -> (writer: Self)
        ensures
            writer.value() == obj@,
            writer.none() == opt_slice_view(none_value),
    {
        SerializePyObject { obj, none_value }
    }

    /// A writer of `obj` with the surrogate of this writer.
    fn with_obj(&self, obj: &'a HostValue) -> (writer: Self)
        ensures
            writer.obj == obj,
            writer.none_value == self.none_value,
    {
        SerializePyObject { obj, none_value: self.none_value }
    }

    /// Writes, into `map`, the entries of `dict_items` that belong to the
    /// pass `pass`. `key_set` holds the keys of `map`.
    fn ser_dict(
        &self,
        map: &mut Vec<(String, TomlValue)>,
        key_set: &mut StringHashSet,
        dict_items: &'a Vec<(HostKey, HostValue)>,
        pass: u8,
    ) -> (r: Result<(), SerializeError>)
        requires
            depth_of_pairs(pairs_view(dict_items@)) < MAX_DEPTH,
            forall|k: Seq<char>|
                old(key_set)@.contains(k) <==> keys_of(entries_view(old(map)@)).contains(k),
        ensures
            match r {
                Ok(_) => {
                    &&& encode_pass(
                        pairs_view(dict_items@),
                        self.none(),
                        pass as int,
                        entries_view(old(map)@),
                    ) == Ok::<Seq<(Seq<char>, TomlView)>, SerializeErrorView>(
                        entries_view(final(map)@),
                    )
                    &&& forall|k: Seq<char>|
                        final(key_set)@.contains(k) <==> keys_of(
                            entries_view(final(map)@),
                        ).contains(k)
                },
                Err(e) => encode_pass(
                    pairs_view(dict_items@),
                    self.none(),
                    pass as int,
                    entries_view(old(map)@),
                ) == Err::<Seq<(Seq<char>, TomlView)>, SerializeErrorView>(e@),
            },
        decreases dict_items,
    {
        let ghost all = pairs_view(dict_items@);
        let ghost start = entries_view(map@);
        let mut i: usize = 0;
        proof {
            assert(all.take(0) =~= Seq::<(HostKeyView, HostView)>::empty());
        }
        while i < dict_items.len()
            invariant
                i <= dict_items.len(),
                all == pairs_view(dict_items@),
                depth_of_pairs(all) < MAX_DEPTH,
                start == entries_view(old(map)@),
                encode_pass(all.take(i as int), self.none(), pass as int, start) == Ok::<
                    Seq<(Seq<char>, TomlView)>,
                    SerializeErrorView,
                >(entries_view(map@)),
                forall|k: Seq<char>|
                    key_set@.contains(k) <==> keys_of(entries_view(map@)).contains(k),
            decreases dict_items.len() - i,
        {
            proof {
                assert(all.take(i + 1).drop_last() =~= all.take(i as int));
                assert(all.take(i + 1).last() == (dict_items@[i as int].0@, dict_items@[i as int].1@));
                lemma_depth_of_pairs(all, (MAX_DEPTH - 1) as nat);
                assert(all[i as int].1.depth() <= MAX_DEPTH - 1);
            }
            let k = &dict_items[i].0;
            let v = &dict_items[i].1;
            let kind = classify(v);
            let kept = match self.none_value {
                Some(_) => true,
                None => match kind {
                    Kind::Null => false,
                    _ => true,
                },
            };
            if kept && bucket(kind) == pass {
                let key = match table_key(k, self.none_value) {
                    Ok(key) => key,
                    Err(e) => {
                        proof {
                            lemma_encode_pass_error_stays(all, self.none(), pass as int, start, i + 1);
                        }
                        return Err(e);
                    },
                };
                let value = match self.with_obj(v).serialize() {
                    Ok(value) => value,
                    Err(e) => {
                        proof {
                            lemma_encode_pass_error_stays(all, self.none(), pass as int, start, i + 1);
                        }
                        return Err(e);
                    },
                };
                if !key_set.insert(key.clone()) {
                    proof {
                        lemma_encode_pass_error_stays(all, self.none(), pass as int, start, i + 1);
                    }
                    return Err(SerializeError::DuplicateKey(key));
                }
                proof {
                    let before = entries_view(map@);
                    let after = entries_view(map@.push((key, value)));
                    assert(after =~= before.push((key@, value@)));
                    assert(keys_of(after) =~= keys_of(before).push(key@));
                    assert forall|x: Seq<char>| key_set@.contains(x) <==> keys_of(after).contains(
                        x,
                    ) by {
                        if keys_of(before).contains(x) {
                            let j = choose|j: int|
                                0 <= j < keys_of(before).len() && keys_of(before)[j] == x;
                            assert(keys_of(after)[j] == x);
                        }
                        if x == key@ {
                            assert(keys_of(after)[before.len() as int] == x);
                        }
                    }
                }
                map.push((key, value));
            }
            i += 1;
        }
        proof {
            assert(all.take(i as int) =~= all);
        }
        Ok(())
    }

    /// Writes the items of a list or a tuple: the kept items, in order.
    fn ser_seq(&self, items: &'a Vec<HostValue>) -> (r: Result<TomlValue, SerializeError>)
        requires
            depth_of_hosts(hosts_view(items@)) < MAX_DEPTH,
        ensures
            encoded(r) == (match encode_items(hosts_view(items@), self.none()) {
                Ok(values) => Ok::<TomlView, SerializeErrorView>(TomlView::Array(values)),
                Err(e) => Err(e),
            }),
        decreases items,
    {
        let ghost all = hosts_view(items@);
        let mut values: Vec<TomlValue> = Vec::new();
        let mut i: usize = 0;
        proof {
            assert(all.take(0) =~= Seq::<HostView>::empty());
            assert(values_view(values@) =~= Seq::<TomlView>::empty());
        }
        while i < items.len()
            invariant
                i <= items.len(),
                all == hosts_view(items@),
                depth_of_hosts(all) < MAX_DEPTH,
                encode_items(all.take(i as int), self.none()) == Ok::<
                    Seq<TomlView>,
                    SerializeErrorView,
                >(values_view(values@)),
            decreases items.len() - i,
        {
            proof {
                assert(all.take(i + 1).drop_last() =~= all.take(i as int));
                assert(all.take(i + 1).last() == items@[i as int]@);
                lemma_depth_of_hosts(all, (MAX_DEPTH - 1) as nat);
                assert(all[i as int].depth() <= MAX_DEPTH - 1);
            }
            let element = &items[i];
            let kept = match self.none_value {
                Some(_) => true,
                None => match element {
                    HostValue::Null => false,
                    _ => true,
                },
            };
            if kept {
                match self.with_obj(element).serialize() {
                    Ok(v) => {
                        proof {
                            assert(values_view(values@.push(v)) =~= values_view(values@).push(v@));
                        }
                        values.push(v);
                    },
                    Err(e) => {
                        proof {
                            lemma_encode_items_error_stays(all, self.none(), i + 1);
                        }
                        return Err(e);
                    },
                }
            }
            i += 1;
        }
        proof {
            assert(all.take(i as int) =~= all);
            lemma_array_view(values);
        }
        Ok(TomlValue::Array(values))
    }

    /// Writes the value of this writer as a TOML document node.
    ///
    /// Fails with `UnserializableType` at the first value of an unknown
    /// type, with `UnserializableKey` at the first key that has no text,
    /// with `InvalidDatetime` at the first date or time that does not exist,
    /// with `DuplicateKey` at the first key whose text its table holds
    /// already; which comes first goes by the order of writing. Asked only
    /// for a value that nests no deeper than `MAX_DEPTH`, so that the walk
    /// goes no deeper either.
    pub fn serialize(&self) -> (r: Result<TomlValue, SerializeError>)
        requires
            self.value().depth() <= MAX_DEPTH,
        ensures
            encoded(r) == spec_encode(self.value(), self.none()),
        decreases self.obj,
    {
        match self.obj {
            HostValue::Null => {
                let text = match self.none_value {
                    Some(s) => String::from_str(s),
                    None => String::from_str("null"),
                };
                Ok(TomlValue::String(text))
            },
            HostValue::Int(i) => Ok(TomlValue::Integer(*i)),
            HostValue::Bool(b) => Ok(TomlValue::Boolean(*b)),
            HostValue::Float(f) => Ok(TomlValue::Float(f.duplicate())),
            HostValue::Str(s) => Ok(TomlValue::String(s.clone())),
            HostValue::Dict(entries) => {
                proof {
                    lemma_dict_view(*entries);
                }
                let mut map: Vec<(String, TomlValue)> = Vec::new();
                let mut key_set = StringHashSet::new();
                proof {
                    assert(entries_view(map@) =~= Seq::<(Seq<char>, TomlView)>::empty());
                    assert(keys_of(entries_view(map@)) =~= Seq::<Seq<char>>::empty());
                }
                match self.ser_dict(&mut map, &mut key_set, entries, 0) {
                    Ok(_) => {},
                    Err(e) => {
                        return Err(e);
                    },
                }
                match self.ser_dict(&mut map, &mut key_set, entries, 1) {
                    Ok(_) => {},
                    Err(e) => {
                        return Err(e);
                    },
                }
                match self.ser_dict(&mut map, &mut key_set, entries, 2) {
                    Ok(_) => {},
                    Err(e) => {
                        return Err(e);
                    },
                }
                proof {
                    lemma_table_view(map);
                }
                Ok(TomlValue::Table(map))
            },
            HostValue::List(items) => {
                proof {
                    lemma_list_view(*items);
                }
                self.ser_seq(items)
            },
            HostValue::Tuple(items) => {
                proof {
                    lemma_tuple_view(*items);
                }
                self.ser_seq(items)
            },
            HostValue::DateTime(dt) => match datetime_value(dt) {
                Some(d) => Ok(TomlValue::Datetime(d)),
                None => Err(SerializeError::InvalidDatetime),
            },
            HostValue::Date(date) => match date_value(date) {
                Some(d) => Ok(TomlValue::Datetime(d)),
                None => Err(SerializeError::InvalidDatetime),
            },
            HostValue::Time(time) => match time_value(time) {
                Some(d) => Ok(TomlValue::Datetime(d)),
                None => Err(SerializeError::InvalidDatetime),
            },
            HostValue::Bytes(bytes) => {
                let mut values: Vec<TomlValue> = Vec::new();
                let mut i: usize = 0;
                while i < bytes.len()
                    invariant
                        i <= bytes.len(),
                        values_view(values@) =~= bytes_array(bytes@).take(i as int),
                    decreases bytes.len() - i,
                {
                    proof {
                        let v = TomlValue::Integer(bytes@[i as int] as i64);
                        assert(values_view(values@.push(v)) =~= values_view(values@).push(v@));
                        assert(bytes_array(bytes@).take(i + 1) =~= bytes_array(bytes@).take(
                            i as int,
                        ).push(v@));
                    }
                    values.push(TomlValue::Integer(bytes[i] as i64));
                    i += 1;
                }
                proof {
                    assert(bytes_array(bytes@).take(i as int) =~= bytes_array(bytes@));
                    lemma_array_view(values);
                }
                Ok(TomlValue::Array(values))
            },
            HostValue::Other { class_name: name, repr } => Err(
                SerializeError::UnserializableType {
                    class_name: name.clone(),
                    repr: match repr {
                        Some(r) => Some(r.clone()),
                        None => None,
                    },
                },
            ),
        }
    }
}

} // verus!
