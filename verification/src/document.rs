//! Between the values of the `toml` crate and the document tree.
//!
//! A parsed document is copied node by node into a [`TomlValue`], and a
//! [`TomlValue`] is built up node by node into a value that the crate's
//! printer takes. Both walks are proved to keep what the nodes hold.

use vstd::prelude::*;
use crate::toml_io::{
    datetime_of_parts, datetime_parts, entry_keys_of, entry_models_of, models_of, node_of,
    printed_view, read_datetime, toml_compact_text, toml_datetime, toml_model, toml_pretty_text,
    value_of, write_compact, write_pretty, Node,
};
use crate::value::{
    entries_view, keys_of, lemma_array_view, lemma_depth_of_entries, lemma_depth_of_items,
    lemma_table_view, values_view, DateTimeValue, TomlValue, TomlView, MAX_DEPTH,
};

verus! {

/// The model of what the parser hands back.
pub open spec fn parsed_model(r: Result<toml::Value, String>) -> Result<TomlView, Seq<char>> {
    match r {
        Ok(v) => Ok(toml_model(v)),
        Err(m) => Err(m@),
    }
}

/// The items of `items`, last first.
fn reversed<T>(items: Vec<T>) -> (out: Vec<T>)
    ensures
        out@.len() == items@.len(),
        forall|k: int| 0 <= k < out@.len() ==> out@[k] == items@[items@.len() - 1 - k],
{
    let ghost all = items@;
    let mut rest = items;
    let mut out: Vec<T> = Vec::new();
    while rest.len() > 0
        invariant
            rest@.len() <= all.len(),
            rest@ == all.take(rest@.len() as int),
            out@.len() == all.len() - rest@.len(),
            forall|k: int| 0 <= k < out@.len() ==> out@[k] == all[all.len() - 1 - k],
        decreases rest@.len(),
    {
        let item = rest.pop().unwrap();
        out.push(item);
    }
    out
}

/// Copies a value of the `toml` crate into a document tree, node by node,
/// where the value nests no deeper than `limit`; `None` where it nests
/// deeper. Goes no deeper than `limit` levels itself.
pub fn from_toml(value: toml::Value, limit: usize) -> (document: Option<TomlValue>)
    ensures
        match document {
            Some(d) => d@ == toml_model(value) && toml_model(value).depth() <= limit,
            None => toml_model(value).depth() > limit,
        },
    decreases toml_model(value),
{
    match node_of(value) {
        Node::String(s) => Some(TomlValue::String(s)),
        Node::Integer(i) => Some(TomlValue::Integer(i)),
        Node::Float(f) => Some(TomlValue::Float(f)),
        Node::Boolean(b) => Some(TomlValue::Boolean(b)),
        Node::Datetime(d) => Some(TomlValue::Datetime(datetime_parts(&d))),
        Node::Array(items) => {
            if limit == 0 {
                return None;
            }
            let ghost all = items@;
            let ghost models = models_of(all);
            let mut rest = items;
            let mut back: Vec<TomlValue> = Vec::new();
            while rest.len() > 0
                invariant
                    limit > 0,
                    models == models_of(all),
                    toml_model(value) == TomlView::Array(models),
                    rest@.len() <= all.len(),
                    rest@ == all.take(rest@.len() as int),
                    back@.len() == all.len() - rest@.len(),
                    forall|k: int|
                        0 <= k < back@.len() ==> (#[trigger] back@[k])@ == toml_model(
                            all[all.len() - 1 - k],
                        ),
                    forall|k: int|
                        rest@.len() <= k < all.len() ==> (#[trigger] models[k]).depth() <= limit
                            - 1,
                decreases rest@.len(),
            {
                let child = rest.pop().unwrap();
                proof {
                    let at = rest@.len() as int;
                    assert(toml_model(child) == models[at]);
                    assert(decreases_to!(models => models[at]));
                    assert(decreases_to!(toml_model(value) => toml_model(value)->Array_0));
                }
                match from_toml(child, limit - 1) {
                    Some(converted) => {
                        back.push(converted);
                    },
                    None => {
                        proof {
                            lemma_depth_of_items(models, (limit - 1) as nat);
                            assert(!(models[rest@.len() as int].depth() <= limit - 1));
                        }
                        return None;
                    },
                }
            }
            let out = reversed(back);
            proof {
                lemma_array_view(out);
                assert(values_view(out@) =~= models);
                lemma_depth_of_items(models, (limit - 1) as nat);
            }
            Some(TomlValue::Array(out))
        },
        Node::Table(entries) => {
            if limit == 0 {
                return None;
            }
            let ghost all = entries@;
            let ghost models = entry_models_of(all);
            let mut rest = entries;
            let mut back: Vec<(String, TomlValue)> = Vec::new();
            while rest.len() > 0
                invariant
                    limit > 0,
                    models == entry_models_of(all),
                    toml_model(value) == TomlView::Table(models),
                    rest@.len() <= all.len(),
                    rest@ == all.take(rest@.len() as int),
                    back@.len() == all.len() - rest@.len(),
                    forall|k: int|
                        0 <= k < back@.len() ==> (#[trigger] back@[k]).0@ == all[all.len() - 1
                            - k].0@ && back@[k].1@ == toml_model(all[all.len() - 1 - k].1),
                    forall|k: int|
                        rest@.len() <= k < all.len() ==> (#[trigger] models[k]).1.depth() <= limit
                            - 1,
                decreases rest@.len(),
            {
                let (key, child) = rest.pop().unwrap();
                proof {
                    let at = rest@.len() as int;
                    assert(toml_model(child) == models[at].1);
                    assert(decreases_to!(models => models[at]));
                    assert(decreases_to!(models[at] => models[at].1));
                    assert(decreases_to!(toml_model(value) => toml_model(value)->Table_0));
                }
                match from_toml(child, limit - 1) {
                    Some(converted) => {
                        back.push((key, converted));
                    },
                    None => {
                        proof {
                            lemma_depth_of_entries(models, (limit - 1) as nat);
                            assert(!(models[rest@.len() as int].1.depth() <= limit - 1));
                        }
                        return None;
                    },
                }
            }
            let out = reversed(back);
            proof {
                lemma_table_view(out);
                assert(entries_view(out@) =~= models);
                lemma_depth_of_entries(models, (limit - 1) as nat);
            }
            Some(TomlValue::Table(out))
        },
    }
}

/// Builds the value of the `toml` crate that holds what a document tree
/// holds, node by node. Asked only for a tree in which no table holds a key
/// twice and which nests no deeper than one level more than `MAX_DEPTH`:
/// that is as deep as a walk of a host value makes it.
pub fn to_toml(document: &TomlValue) -> (value: toml::Value)
    requires
        document@.keys_unique(),
        document@.depth() <= MAX_DEPTH + 1,
    ensures
        toml_model(value) == document@,
    decreases document,
{
    match document {
        TomlValue::String(s) => value_of(Node::String(s.clone())),
        TomlValue::Integer(i) => value_of(Node::Integer(*i)),
        TomlValue::Float(f) => f.to_toml(),
        TomlValue::Boolean(b) => value_of(Node::Boolean(*b)),
        TomlValue::Datetime(d) => value_of(Node::Datetime(datetime_of_parts(d))),
        TomlValue::Array(items) => {
            proof {
                lemma_array_view(*items);
            }
            let mut out: Vec<toml::Value> = Vec::new();
            let mut i: usize = 0;
            while i < items.len()
                invariant
                    document is Array,
                    document->Array_0 == items,
                    document@ == TomlView::Array(values_view(items@)),
                    document@.keys_unique(),
                    document@.depth() <= MAX_DEPTH + 1,
                    i <= items.len(),
                    out@.len() == i,
                    forall|k: int| 0 <= k < i ==> toml_model(#[trigger] out@[k]) == items@[k]@,
                decreases items.len() - i,
            {
                proof {
                    assert(document@->Array_0 == values_view(items@));
                    assert(values_view(items@)[i as int].keys_unique());
                    lemma_depth_of_items(values_view(items@), MAX_DEPTH as nat);
                    assert(values_view(items@)[i as int].depth() <= MAX_DEPTH);
                }
                out.push(to_toml(&items[i]));
                i += 1;
            }
            proof {
                assert(models_of(out@) =~= values_view(items@));
            }
            value_of(Node::Array(out))
        },
        TomlValue::Table(entries) => {
            proof {
                lemma_table_view(*entries);
            }
            let mut out: Vec<(String, toml::Value)> = Vec::new();
            let mut i: usize = 0;
            while i < entries.len()
                invariant
                    document is Table,
                    document->Table_0 == entries,
                    document@ == TomlView::Table(entries_view(entries@)),
                    document@.keys_unique(),
                    document@.depth() <= MAX_DEPTH + 1,
                    i <= entries.len(),
                    out@.len() == i,
                    forall|k: int|
                        0 <= k < i ==> (#[trigger] out@[k]).0@ == entries@[k].0@ && toml_model(
                            out@[k].1,
                        ) == entries@[k].1@,
                decreases entries.len() - i,
            {
                proof {
                    assert(document@->Table_0 == entries_view(entries@));
                    assert(entries_view(entries@)[i as int].1.keys_unique());
                    lemma_depth_of_entries(entries_view(entries@), MAX_DEPTH as nat);
                    assert(entries_view(entries@)[i as int].1.depth() <= MAX_DEPTH);
                }
                let key = entries[i].0.clone();
                out.push((key, to_toml(&entries[i].1)));
                i += 1;
            }
            proof {
                assert(entry_models_of(out@) =~= entries_view(entries@));
                assert(entry_keys_of(out@) =~= keys_of(entries_view(entries@)));
            }
            value_of(Node::Table(out))
        },
    }
}

/// Prints a document in the compact form: what the printer of the `toml`
/// crate writes for it, or the printer's message.
pub(crate) fn print_compact(document: &TomlValue) -> (r: Result<String, String>)
    requires
        document@.keys_unique(),
        document@.depth() <= MAX_DEPTH + 1,
    ensures
        printed_view(r) == toml_compact_text(document@),
{
    let value = to_toml(document);
    write_compact(&value)
}

/// Prints a document in the multi-line form: what the other printer of the
/// `toml` crate writes for it, or the printer's message.
pub(crate) fn print_pretty(document: &TomlValue) -> (r: Result<String, String>)
    requires
        document@.keys_unique(),
        document@.depth() <= MAX_DEPTH + 1,
    ensures
        printed_view(r) == toml_pretty_text(document@),
{
    let value = to_toml(document);
    write_pretty(&value)
}

/// Reads one date-time literal: the parts that the `toml` crate reads from
/// it, `None` where the crate finds no date-time.
pub fn parse_datetime_literal(literal: &str) -> (r: Option<DateTimeValue>)
    ensures
        r == toml_datetime(literal@),
{
    match read_datetime(literal) {
        Some(d) => Some(datetime_parts(&d)),
        None => None,
    }
}

} // verus!
