//! Writing and reading back.
//!
//! A host value that TOML can hold as it is comes back from the document
//! that it is written as, up to the order of the entries of its mappings:
//! those come back regrouped, in the order in which they were written.

use vstd::prelude::*;
use crate::datetime::{
    date_exists, datetime_exists, lemma_date_round_trip, lemma_datetime_round_trip,
    lemma_time_round_trip, time_exists,
};
use crate::de::{
    decode_entries, decode_items, lemma_decoded_entries, lemma_distinct_entries_decode,
    spec_decode, DATETIME_MAPPING_KEY,
};
use crate::error::{ParseErrorView, SerializeErrorView};
use crate::host::{HostKeyView, HostView};
use crate::ser::{
    bucket_of, encode_items, encode_pass, grouped, is_kept, lemma_encode_pass_entries,
    lemma_encode_shape, lemma_key_grouping, lemma_written_in_pass, spec_encode, spec_table_key,
    written_in_pass,
};
use crate::value::{keys_of, TomlView};

verus! {

/// A host value that TOML can hold as it is: no bytes, no tuple, no value of
/// an unknown type; null only where a surrogate is set, and no string that
/// is the surrogate; every date and time one that exists; every key of a
/// mapping a string, none twice in its mapping, and none the reserved
/// date-time key.
pub open spec fn is_plain(h: HostView, none: Option<Seq<char>>) -> bool
    decreases h,
{
    match h {
        HostView::Null => none is Some,
        HostView::Bool(_) => true,
        HostView::Int(_) => true,
        HostView::Float(_) => true,
        HostView::Str(s) => none != Some(s),
        HostView::List(items) => forall|i: int|
            0 <= i < items.len() ==> is_plain(#[trigger] items[i], none),
        HostView::Dict(entries) => {
            &&& forall|i: int|
                0 <= i < entries.len() ==> {
                    &&& (#[trigger] entries[i]).0 is Str
                    &&& entries[i].0 != HostKeyView::Str(DATETIME_MAPPING_KEY@)
                    &&& is_plain(entries[i].1, none)
                }
            &&& forall|i: int, j: int|
                0 <= i < entries.len() && 0 <= j < entries.len() && i != j ==> (
                #[trigger] entries[i]).0 != (#[trigger] entries[j]).0
        },
        HostView::DateTime(dt) => datetime_exists(dt),
        HostView::Date(d) => date_exists(d),
        HostView::Time(t) => time_exists(t),
        _ => false,
    }
}

/// The entries of a mapping with each value regrouped, in their own order.
pub open spec fn regrouped_entries(
    entries: Seq<(HostKeyView, HostView)>,
    none: Option<Seq<char>>,
) -> Seq<(HostKeyView, HostView)>
    decreases entries,
{
    Seq::new(
        entries.len(),
        |i: int|
            if 0 <= i < entries.len() {
                (entries[i].0, regrouped(entries[i].1, none))
            } else {
                (HostKeyView::Null, HostView::Null)
            },
    )
}

/// A host value with the entries of every mapping in it put into the order
/// in which they are written: the three groups one after the other.
pub open spec fn regrouped(h: HostView, none: Option<Seq<char>>) -> HostView
    decreases h,
{
    match h {
        HostView::List(items) => HostView::List(
            Seq::new(
                items.len(),
                |i: int|
                    if 0 <= i < items.len() {
                        regrouped(items[i], none)
                    } else {
                        HostView::Null
                    },
            ),
        ),
        HostView::Dict(entries) => HostView::Dict(grouped(regrouped_entries(entries, none), none)),
        _ => h,
    }
}

/// Regrouping changes neither the group of a value nor whether it is kept.
pub proof fn lemma_regrouped_kind(h: HostView, none: Option<Seq<char>>)
    ensures
        bucket_of(regrouped(h, none)) == bucket_of(h),
        is_kept(regrouped(h, none), none) == is_kept(h, none),
{
}

/// A pass over regrouped entries writes the regrouped entries of the pass.
pub proof fn lemma_pass_of_regrouped(
    entries: Seq<(HostKeyView, HostView)>,
    none: Option<Seq<char>>,
    bucket: int,
)
    ensures
        written_in_pass(regrouped_entries(entries, none), none, bucket) == regrouped_entries(
            written_in_pass(entries, none, bucket),
            none,
        ),
    decreases entries.len(),
{
    let mapped = regrouped_entries(entries, none);
    if entries.len() > 0 {
        let rest = entries.drop_last();
        lemma_pass_of_regrouped(rest, none, bucket);
        assert(mapped.drop_last() =~= regrouped_entries(rest, none));
        assert(mapped.last() == (entries.last().0, regrouped(entries.last().1, none)));
        lemma_regrouped_kind(entries.last().1, none);
        let sel = written_in_pass(entries, none, bucket);
        let before = written_in_pass(rest, none, bucket);
        if is_kept(entries.last().1, none) && bucket_of(entries.last().1) == bucket {
            assert(regrouped_entries(sel, none) =~= regrouped_entries(before, none).push(
                mapped.last(),
            ));
        }
    } else {
        assert(written_in_pass(mapped, none, bucket) =~= regrouped_entries(
            written_in_pass(entries, none, bucket),
            none,
        ));
    }
}

/// Items that are all kept and all written well are written one for one.
pub proof fn lemma_items_written(items: Seq<HostView>, none: Option<Seq<char>>)
    requires
        forall|i: int|
            0 <= i < items.len() ==> is_kept(#[trigger] items[i], none) && spec_encode(
                items[i],
                none,
            ) is Ok,
    ensures
        encode_items(items, none) matches Ok(values) && values.len() == items.len() && forall|
            i: int,
        |
            0 <= i < items.len() ==> spec_encode(#[trigger] items[i], none) == Ok::<
                TomlView,
                SerializeErrorView,
            >(values[i]),
    decreases items.len(),
{
    if items.len() > 0 {
        let rest = items.drop_last();
        assert forall|i: int| 0 <= i < rest.len() implies is_kept(#[trigger] rest[i], none)
            && spec_encode(rest[i], none) is Ok by {
            assert(rest[i] == items[i]);
        }
        lemma_items_written(rest, none);
        let values = encode_items(items, none)->Ok_0;
        let before = encode_items(rest, none)->Ok_0;
        assert(items[items.len() - 1] == items.last());
        assert forall|i: int| 0 <= i < items.len() implies spec_encode(
            #[trigger] items[i],
            none,
        ) == Ok::<TomlView, SerializeErrorView>(values[i]) by {
            if i < rest.len() {
                assert(rest[i] == items[i]);
                assert(values[i] == before[i]);
            }
        }
    }
}

/// Items that all read well are read one for one.
pub proof fn lemma_items_read(values: Seq<TomlView>, none: Option<Seq<char>>)
    requires
        forall|i: int| 0 <= i < values.len() ==> spec_decode(#[trigger] values[i], none) is Ok,
    ensures
        decode_items(values, none) matches Ok(hosts) && hosts.len() == values.len() && forall|
            i: int,
        |
            0 <= i < values.len() ==> spec_decode(#[trigger] values[i], none) == Ok::<
                HostView,
                ParseErrorView,
            >(hosts[i]),
    decreases values.len(),
{
    if values.len() > 0 {
        let rest = values.drop_last();
        assert forall|i: int| 0 <= i < rest.len() implies spec_decode(
            #[trigger] rest[i],
            none,
        ) is Ok by {
            assert(rest[i] == values[i]);
        }
        lemma_items_read(rest, none);
        let hosts = decode_items(values, none)->Ok_0;
        let before = decode_items(rest, none)->Ok_0;
        assert(values[values.len() - 1] == values.last());
        assert forall|i: int| 0 <= i < values.len() implies spec_decode(
            #[trigger] values[i],
            none,
        ) == Ok::<HostView, ParseErrorView>(hosts[i]) by {
            if i < rest.len() {
                assert(rest[i] == values[i]);
                assert(hosts[i] == before[i]);
            }
        }
    }
}

/// A pass succeeds where the keys of the mapping are strings that differ
/// from one another, the values of the pass are written well, and no key
/// of the pass stands in the table already.
pub proof fn lemma_pass_succeeds(
    entries: Seq<(HostKeyView, HostView)>,
    none: Option<Seq<char>>,
    bucket: int,
    start: Seq<(Seq<char>, TomlView)>,
)
    requires
        forall|i: int|
            0 <= i < entries.len() ==> (#[trigger] entries[i]).0 is Str && spec_encode(
                entries[i].1,
                none,
            ) is Ok,
        forall|i: int, j: int|
            0 <= i < entries.len() && 0 <= j < entries.len() && i != j ==> (
            #[trigger] entries[i]).0 != (#[trigger] entries[j]).0,
        forall|i: int, j: int|
            0 <= i < entries.len() && 0 <= j < start.len() && bucket_of(entries[i].1) == bucket
                ==> (#[trigger] start[j]).0 != (#[trigger] entries[i]).0->Str_0,
    ensures
        encode_pass(entries, none, bucket, start) is Ok,
    decreases entries.len(),
{
    if entries.len() > 0 {
        let rest = entries.drop_last();
        let last = entries.last();
        let n = entries.len() - 1;
        assert(entries[n] == last);
        assert forall|i: int| 0 <= i < rest.len() implies (#[trigger] rest[i]).0 is Str
            && spec_encode(rest[i].1, none) is Ok by {
            assert(rest[i] == entries[i]);
        }
        assert forall|i: int, j: int|
            0 <= i < rest.len() && 0 <= j < rest.len() && i != j implies (#[trigger] rest[i]).0 != (
        #[trigger] rest[j]).0 by {
            assert(rest[i] == entries[i]);
            assert(rest[j] == entries[j]);
        }
        assert forall|i: int, j: int|
            0 <= i < rest.len() && 0 <= j < start.len() && bucket_of(rest[i].1)
                == bucket implies (#[trigger] start[j]).0 != (#[trigger] rest[i]).0->Str_0 by {
            assert(rest[i] == entries[i]);
        }
        lemma_pass_succeeds(rest, none, bucket, start);
        if is_kept(last.1, none) && bucket_of(last.1) == bucket {
            let done = encode_pass(rest, none, bucket, start)->Ok_0;
            let key = last.0->Str_0;
            assert(spec_table_key(last.0, none) == Ok::<Seq<char>, SerializeErrorView>(key));
            lemma_encode_pass_entries(rest, none, bucket, start);
            lemma_written_in_pass(rest, none, bucket);
            let sel = written_in_pass(rest, none, bucket);
            if keys_of(done).contains(key) {
                let j = choose|j: int| 0 <= j < keys_of(done).len() && keys_of(done)[j] == key;
                if j < start.len() {
                    assert(done[j] == start[j]);
                    assert(start[j].0 != entries[n].0->Str_0);
                } else {
                    let e = sel[j - start.len()];
                    assert(rest.contains(e));
                    let q = choose|q: int| 0 <= q < rest.len() && rest[q] == e;
                    assert(entries[q] == e);
                    assert(entries[q].0 != entries[n].0);
                    assert(spec_table_key(e.0, none) == Ok::<Seq<char>, SerializeErrorView>(
                        done[j].0,
                    ));
                    assert(e.0 is Str);
                    assert(e.0 == HostKeyView::Str(key));
                }
            }
        }
    }
}

/// Round trip. A plain host value is written well, and the document that it
/// is written as reads back as the value itself with the entries of its
/// mappings regrouped.
pub proof fn lemma_round_trip(h: HostView, none: Option<Seq<char>>)
    requires
        is_plain(h, none),
    ensures
        spec_encode(h, none) is Ok,
        spec_decode(spec_encode(h, none)->Ok_0, none) == Ok::<HostView, ParseErrorView>(
            regrouped(h, none),
        ),
    decreases h,
{
    match h {
        HostView::DateTime(dt) => {
            lemma_datetime_round_trip(dt);
        },
        HostView::Date(d) => {
            lemma_date_round_trip(d);
        },
        HostView::Time(t) => {
            lemma_time_round_trip(t);
        },
        HostView::List(items) => {
            assert forall|i: int| 0 <= i < items.len() implies is_kept(#[trigger] items[i], none)
                && spec_encode(items[i], none) is Ok by {
                lemma_round_trip(items[i], none);
            }
            lemma_items_written(items, none);
            let values = encode_items(items, none)->Ok_0;
            assert forall|i: int| 0 <= i < values.len() implies spec_decode(
                #[trigger] values[i],
                none,
            ) == Ok::<HostView, ParseErrorView>(regrouped(items[i], none)) by {
                lemma_round_trip(items[i], none);
            }
            lemma_items_read(values, none);
            let hosts = decode_items(values, none)->Ok_0;
            assert(hosts =~= regrouped(h, none)->List_0);
        },
        HostView::Dict(entries) => {
            lemma_dict_round_trip(entries, none);
        },
        _ => {},
    }
}

/// The round trip of a mapping. See [`lemma_round_trip`].
pub proof fn lemma_dict_round_trip(entries: Seq<(HostKeyView, HostView)>, none: Option<Seq<char>>)
    requires
        is_plain(HostView::Dict(entries), none),
    ensures
        spec_encode(HostView::Dict(entries), none) is Ok,
        spec_decode(spec_encode(HostView::Dict(entries), none)->Ok_0, none) == Ok::<
            HostView,
            ParseErrorView,
        >(regrouped(HostView::Dict(entries), none)),
    decreases entries,
{
    let h = HostView::Dict(entries);
    let empty = Seq::<(Seq<char>, TomlView)>::empty();
    assert forall|i: int| 0 <= i < entries.len() implies (#[trigger] entries[i]).0 is Str
        && spec_encode(entries[i].1, none) is Ok by {
        lemma_round_trip(entries[i].1, none);
    }
    // The three passes succeed.
    lemma_pass_succeeds(entries, none, 0, empty);
    let simple = encode_pass(entries, none, 0, empty)->Ok_0;
    lemma_encode_pass_entries(entries, none, 0, empty);
    lemma_written_in_pass(entries, none, 0);
    let a = written_in_pass(entries, none, 0);
    assert forall|i: int, j: int|
        0 <= i < entries.len() && 0 <= j < simple.len() && bucket_of(entries[i].1)
            == 1 implies (#[trigger] simple[j]).0 != (#[trigger] entries[i]).0->Str_0 by {
        lemma_other_pass_key(entries, none, a[j], simple[j].0, i);
    }
    lemma_pass_succeeds(entries, none, 1, simple);
    let arrays = encode_pass(entries, none, 1, simple)->Ok_0;
    lemma_encode_pass_entries(entries, none, 1, simple);
    lemma_written_in_pass(entries, none, 1);
    let b = written_in_pass(entries, none, 1);
    assert forall|i: int, j: int|
        0 <= i < entries.len() && 0 <= j < arrays.len() && bucket_of(entries[i].1)
            == 2 implies (#[trigger] arrays[j]).0 != (#[trigger] entries[i]).0->Str_0 by {
        if j < simple.len() {
            assert(arrays[j] == simple[j]);
            lemma_other_pass_key(entries, none, a[j], arrays[j].0, i);
        } else {
            lemma_other_pass_key(entries, none, b[j - simple.len()], arrays[j].0, i);
        }
    }
    lemma_pass_succeeds(entries, none, 2, arrays);
    let all = encode_pass(entries, none, 2, arrays)->Ok_0;
    assert(spec_encode(h, none) == Ok::<TomlView, SerializeErrorView>(TomlView::Table(all)));
    // What was written, entry for entry.
    lemma_key_grouping(entries, none);
    lemma_encode_shape(h, none);
    let order = grouped(entries, none);
    assert forall|j: int| 0 <= j < all.len() implies spec_decode((#[trigger] all[j]).1, none)
        == Ok::<HostView, ParseErrorView>(regrouped(order[j].1, none)) && all[j].0
        != DATETIME_MAPPING_KEY@ && HostKeyView::Str(all[j].0) == order[j].0 by {
        let e = order[j];
        assert(entries.contains(e));
        let q = choose|q: int| 0 <= q < entries.len() && entries[q] == e;
        lemma_round_trip(entries[q].1, none);
        assert(spec_table_key(e.0, none) == Ok::<Seq<char>, SerializeErrorView>(all[j].0));
    }
    // Reading it back.
    lemma_distinct_entries_decode(all, none);
    lemma_decoded_entries(all, none);
    let pairs = decode_entries(all, none)->Ok_0;
    lemma_pass_of_regrouped(entries, none, 0);
    lemma_pass_of_regrouped(entries, none, 1);
    lemma_pass_of_regrouped(entries, none, 2);
    let target = grouped(regrouped_entries(entries, none), none);
    assert(target =~= regrouped_entries(order, none));
    assert(pairs =~= target) by {
        assert forall|j: int| 0 <= j < pairs.len() implies pairs[j] == target[j] by {
            assert(pairs[j].0 == HostKeyView::Str(all[j].0));
            assert(spec_decode(all[j].1, none) == Ok::<HostView, ParseErrorView>(pairs[j].1));
        }
    }
    if all.len() == 0 {
        assert(pairs =~= Seq::<(HostKeyView, HostView)>::empty());
    }
}

/// The key of an entry that another pass wrote is not the key of an entry
/// of this pass.
pub proof fn lemma_other_pass_key(
    entries: Seq<(HostKeyView, HostView)>,
    none: Option<Seq<char>>,
    written: (HostKeyView, HostView),
    key: Seq<char>,
    i: int,
)
    requires
        0 <= i < entries.len(),
        entries.contains(written),
        bucket_of(written.1) != bucket_of(entries[i].1),
        spec_table_key(written.0, none) == Ok::<Seq<char>, SerializeErrorView>(key),
        forall|p: int| 0 <= p < entries.len() ==> (#[trigger] entries[p]).0 is Str,
        forall|p: int, q: int|
            0 <= p < entries.len() && 0 <= q < entries.len() && p != q ==> (
            #[trigger] entries[p]).0 != (#[trigger] entries[q]).0,
    ensures
        key != entries[i].0->Str_0,
{
    let q = choose|q: int| 0 <= q < entries.len() && entries[q] == written;
    assert(q != i);
    assert(entries[q].0 != entries[i].0);
    assert(entries[q].0 is Str);
    assert(entries[i].0 is Str);
}

/// No table of the document, at any level, holds the reserved date-time
/// key. A document that the parser made is such a one: the parser reads a
/// table with that key as a date-time itself, or refuses it.
pub open spec fn no_reserved_key(v: TomlView) -> bool
    decreases v,
{
    match v {
        TomlView::Array(items) => forall|i: int|
            0 <= i < items.len() ==> no_reserved_key(#[trigger] items[i]),
        TomlView::Table(entries) => forall|i: int|
            0 <= i < entries.len() ==> {
                &&& (#[trigger] entries[i]).0 != DATETIME_MAPPING_KEY@
                &&& no_reserved_key(entries[i].1)
            },
        _ => true,
    }
}

/// Where the items of an array walk well, the result holds what each item
/// becomes, in order.
pub proof fn lemma_decoded_items(items: Seq<TomlView>, none: Option<Seq<char>>)
    ensures
        decode_items(items, none) matches Ok(hosts) ==> hosts.len() == items.len() && forall|
            i: int,
        |
            0 <= i < items.len() ==> spec_decode(#[trigger] items[i], none) == Ok::<
                HostView,
                ParseErrorView,
            >(hosts[i]),
    decreases items.len(),
{
    if items.len() > 0 {
        let rest = items.drop_last();
        lemma_decoded_items(rest, none);
        if let Ok(hosts) = decode_items(items, none) {
            let before = decode_items(rest, none)->Ok_0;
            assert(items[items.len() - 1] == items.last());
            assert forall|i: int| 0 <= i < items.len() implies spec_decode(
                #[trigger] items[i],
                none,
            ) == Ok::<HostView, ParseErrorView>(hosts[i]) by {
                if i < rest.len() {
                    assert(rest[i] == items[i]);
                    assert(hosts[i] == before[i]);
                }
            }
        }
    }
}

/// What a document without the reserved key becomes is a plain host value.
pub proof fn lemma_decoded_is_plain(v: TomlView, none: Option<Seq<char>>)
    requires
        no_reserved_key(v),
        spec_decode(v, none) is Ok,
    ensures
        is_plain(spec_decode(v, none)->Ok_0, none),
    decreases v,
{
    let h = spec_decode(v, none)->Ok_0;
    match v {
        TomlView::Array(items) => {
            lemma_decoded_items(items, none);
            let hosts = decode_items(items, none)->Ok_0;
            assert(h == HostView::List(hosts));
            assert forall|i: int| 0 <= i < hosts.len() implies is_plain(
                #[trigger] hosts[i],
                none,
            ) by {
                assert(no_reserved_key(items[i]));
                lemma_decoded_is_plain(items[i], none);
            }
        },
        TomlView::Table(entries) => {
            if entries.len() > 0 {
                assert(entries[0].0 != DATETIME_MAPPING_KEY@);
                lemma_decoded_entries(entries, none);
                let pairs = decode_entries(entries, none)->Ok_0;
                assert(h == HostView::Dict(pairs));
                assert forall|i: int| 0 <= i < pairs.len() implies {
                    &&& (#[trigger] pairs[i]).0 is Str
                    &&& pairs[i].0 != HostKeyView::Str(DATETIME_MAPPING_KEY@)
                    &&& is_plain(pairs[i].1, none)
                } by {
                    assert(entries[i].0 != DATETIME_MAPPING_KEY@);
                    assert(no_reserved_key(entries[i].1));
                    lemma_decoded_is_plain(entries[i].1, none);
                }
                assert forall|i: int, j: int|
                    0 <= i < pairs.len() && 0 <= j < pairs.len() && i != j implies (
                #[trigger] pairs[i]).0 != (#[trigger] pairs[j]).0 by {
                    assert(keys_of(entries)[i] != keys_of(entries)[j]);
                }
            } else {
                assert(h == HostView::Dict(Seq::<(HostKeyView, HostView)>::empty()));
            }
        },
        _ => {},
    }
}

/// Reading, writing and reading again. What a document without the
/// reserved key becomes on the host is written well, and what was written
/// reads back as the same value with the entries of its mappings regrouped:
/// the same keys in every mapping, the same value under each key, the items
/// of every list in the same order.
pub proof fn lemma_read_write_read(v: TomlView, none: Option<Seq<char>>)
    requires
        no_reserved_key(v),
        spec_decode(v, none) is Ok,
    ensures
        spec_encode(spec_decode(v, none)->Ok_0, none) is Ok,
        spec_decode(spec_encode(spec_decode(v, none)->Ok_0, none)->Ok_0, none) == Ok::<
            HostView,
            ParseErrorView,
        >(regrouped(spec_decode(v, none)->Ok_0, none)),
{
    lemma_decoded_is_plain(v, none);
    lemma_round_trip(spec_decode(v, none)->Ok_0, none);
}

} // verus!
