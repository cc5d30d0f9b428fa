//! The host side of a conversion: the dynamically typed tree that a caller
//! hands in to be written as TOML, and gets back from a document.

use vstd::prelude::*;
use crate::toml_io::Float;
use crate::value::Date;

verus! {

/// A time of day as the host keeps it, with microsecond resolution.
#[derive(Clone, Copy, Debug, PartialEq, Eq, Structural)]
pub struct HostTime {
    pub hour: u8,
    pub minute: u8,
    pub second: u8,
    pub microsecond: u32,
}

/// A fixed offset from UTC: signed hours and unsigned minutes.
#[derive(Clone, Copy, Debug, PartialEq, Eq, Structural)]
pub struct TzInfo {
    pub hours: i8,
    pub minutes: u8,
}

/// A date with a time of day, zoned where `tzinfo` is present and naive
/// where it is not.
#[derive(Clone, Copy, Debug, PartialEq, Eq, Structural)]
pub struct HostDateTime {
    pub date: Date,
    pub time: HostTime,
    pub tzinfo: Option<TzInfo>,
}

/// A key of a mapping of the host.
///
/// A string, a boolean and null are keys that can be written. `Other` is a
/// key of any other type: it carries the name of that type and, where the
/// host could produce one, the key's printed form, so that a failure can
/// show both.
#[derive(Debug, PartialEq, Eq)]
pub enum HostKey {
    Str(String),
    Bool(bool),
    Null,
    Other { class_name: String, repr: Option<String> },
}

/// The mathematical model of a [`HostKey`].
pub enum HostKeyView {
    Str(Seq<char>),
    Bool(bool),
    Null,
    Other { class_name: Seq<char>, repr: Option<Seq<char>> },
}

/// A value of the host.
///
/// A mapping keeps its entries in insertion order. `Other` is a value of a
/// type that the conversion does not know: it carries the name of that type
/// and, where the host could produce one, its printed form.
#[derive(Debug, PartialEq)]
pub enum HostValue {
    Null,
    Bool(bool),
    Int(i64),
    Float(Float),
    Str(String),
    Bytes(Vec<u8>),
    List(Vec<HostValue>),
    Tuple(Vec<HostValue>),
    Dict(Vec<(HostKey, HostValue)>),
    DateTime(HostDateTime),
    Date(Date),
    Time(HostTime),
    Other { class_name: String, repr: Option<String> },
}

/// The mathematical model of a [`HostValue`].
pub enum HostView {
    Null,
    Bool(bool),
    Int(i64),
    Float(Float),
    Str(Seq<char>),
    Bytes(Seq<u8>),
    List(Seq<HostView>),
    Tuple(Seq<HostView>),
    Dict(Seq<(HostKeyView, HostView)>),
    DateTime(HostDateTime),
    Date(Date),
    Time(HostTime),
    Other { class_name: Seq<char>, repr: Option<Seq<char>> },
}

/// The model of an optional string.
pub open spec fn opt_str_view(s: Option<String>) -> Option<Seq<char>> {
    match s {
        Some(text) => Some(text@),
        None => None,
    }
}

/// The model of an optional borrowed string.
pub open spec fn opt_slice_view(s: Option<&str>) -> Option<Seq<char>> {
    match s {
        Some(text) => Some(text@),
        None => None,
    }
}

impl View for HostKey {
    type V = HostKeyView;

    open spec fn view(&self) -> HostKeyView {
        match self {
            HostKey::Str(s) => HostKeyView::Str(s@),
            HostKey::Bool(b) => HostKeyView::Bool(*b),
            HostKey::Null => HostKeyView::Null,
            HostKey::Other { class_name, repr } => HostKeyView::Other {
                class_name: class_name@,
                repr: opt_str_view(*repr),
            },
        }
    }
}

/// What a [`HostValue`] stands for, node by node.
pub open spec fn host_model(h: HostValue) -> HostView
    decreases h,
{
    match h {
        HostValue::Null => HostView::Null,
        HostValue::Bool(b) => HostView::Bool(b),
        HostValue::Int(i) => HostView::Int(i),
        HostValue::Float(bits) => HostView::Float(bits),
        HostValue::Str(s) => HostView::Str(s@),
        HostValue::Bytes(b) => HostView::Bytes(b@),
        HostValue::List(items) => HostView::List(
            Seq::new(
                items@.len(),
                |i: int|
                    if 0 <= i < items@.len() {
                        host_model(items@[i])
                    } else {
                        HostView::Null
                    },
            ),
        ),
        HostValue::Tuple(items) => HostView::Tuple(
            Seq::new(
                items@.len(),
                |i: int|
                    if 0 <= i < items@.len() {
                        host_model(items@[i])
                    } else {
                        HostView::Null
                    },
            ),
        ),
        HostValue::Dict(entries) => HostView::Dict(
            Seq::new(
                entries@.len(),
                |i: int|
                    if 0 <= i < entries@.len() {
                        (entries@[i].0@, host_model(entries@[i].1))
                    } else {
                        (HostKeyView::Null, HostView::Null)
                    },
            ),
        ),
        HostValue::DateTime(dt) => HostView::DateTime(dt),
        HostValue::Date(d) => HostView::Date(d),
        HostValue::Time(t) => HostView::Time(t),
        HostValue::Other { class_name, repr } => HostView::Other {
            class_name: class_name@,
            repr: opt_str_view(repr),
        },
    }
}

impl View for HostValue {
    type V = HostView;

    open spec fn view(&self) -> HostView {
        host_model(*self)
    }
}

/// The models of a run of host values, one for one.
pub open spec fn hosts_view(items: Seq<HostValue>) -> Seq<HostView> {
    Seq::new(items.len(), |i: int| items[i]@)
}

/// The models of a run of mapping entries, one for one.
pub open spec fn pairs_view(entries: Seq<(HostKey, HostValue)>) -> Seq<(HostKeyView, HostView)> {
    Seq::new(entries.len(), |i: int| (entries[i].0@, entries[i].1@))
}

/// A list's model is the run of its items' models.
pub proof fn lemma_list_view(items: Vec<HostValue>)
    ensures
        HostValue::List(items)@ == HostView::List(hosts_view(items@)),
{
    assert(HostValue::List(items)@->List_0 =~= hosts_view(items@));
}

/// A tuple's model is the run of its items' models.
pub proof fn lemma_tuple_view(items: Vec<HostValue>)
    ensures
        HostValue::Tuple(items)@ == HostView::Tuple(hosts_view(items@)),
{
    assert(HostValue::Tuple(items)@->Tuple_0 =~= hosts_view(items@));
}

/// A mapping's model is the run of its entries' models.
pub proof fn lemma_dict_view(entries: Vec<(HostKey, HostValue)>)
    ensures
        HostValue::Dict(entries)@ == HostView::Dict(pairs_view(entries@)),
{
    assert(HostValue::Dict(entries)@->Dict_0 =~= pairs_view(entries@));
}

impl HostView {
    /// How deep lists, tuples and mappings nest: 0 for a scalar, one more
    /// than the deepest item for a container. The keys of a mapping do not
    /// count.
    pub open spec fn depth(self) -> nat
        decreases self,
    {
        match self {
            HostView::List(items) => 1 + depth_of_hosts(items),
            HostView::Tuple(items) => 1 + depth_of_hosts(items),
            HostView::Dict(entries) => 1 + depth_of_pairs(entries),
            _ => 0,
        }
    }
}

/// The greater of two depths.
pub open spec fn deeper(a: nat, b: nat) -> nat {
    if a > b {
        a
    } else {
        b
    }
}

/// The greatest depth among a run of host values, 0 for none.
pub open spec fn depth_of_hosts(items: Seq<HostView>) -> nat
    decreases items,
{
    if items.len() == 0 {
        0
    } else {
        deeper(items.last().depth(), depth_of_hosts(items.drop_last()))
    }
}

/// The greatest depth among the values of a run of entries, 0 for none.
pub open spec fn depth_of_pairs(entries: Seq<(HostKeyView, HostView)>) -> nat
    decreases entries,
{
    if entries.len() == 0 {
        0
    } else {
        deeper(entries.last().1.depth(), depth_of_pairs(entries.drop_last()))
    }
}

/// A run of host values nests no deeper than `n` exactly if none of its
/// items does.
pub proof fn lemma_depth_of_hosts(items: Seq<HostView>, n: nat)
    ensures
        depth_of_hosts(items) <= n <==> forall|i: int|
            0 <= i < items.len() ==> (#[trigger] items[i]).depth() <= n,
    decreases items.len(),
{
    if items.len() > 0 {
        let rest = items.drop_last();
        lemma_depth_of_hosts(rest, n);
        if depth_of_hosts(items) <= n {
            assert forall|i: int| 0 <= i < items.len() implies (#[trigger] items[i]).depth()
                <= n by {
                if i < items.len() - 1 {
                    assert(rest[i] == items[i]);
                }
            }
        } else {
            if items.last().depth() <= n {
                let i = choose|i: int| 0 <= i < rest.len() && !((#[trigger] rest[i]).depth() <= n);
                assert(rest[i] == items[i]);
            }
        }
    }
}

/// A run of mapping entries nests no deeper than `n` exactly if none of its
/// values does.
pub proof fn lemma_depth_of_pairs(entries: Seq<(HostKeyView, HostView)>, n: nat)
    ensures
        depth_of_pairs(entries) <= n <==> forall|i: int|
            0 <= i < entries.len() ==> (#[trigger] entries[i]).1.depth() <= n,
    decreases entries.len(),
{
    if entries.len() > 0 {
        let rest = entries.drop_last();
        lemma_depth_of_pairs(rest, n);
        if depth_of_pairs(entries) <= n {
            assert forall|i: int| 0 <= i < entries.len() implies (#[trigger] entries[i]).1.depth()
                <= n by {
                if i < entries.len() - 1 {
                    assert(rest[i] == entries[i]);
                }
            }
        } else {
            if entries.last().1.depth() <= n {
                let i = choose|i: int|
                    0 <= i < rest.len() && !((#[trigger] rest[i]).1.depth() <= n);
                assert(rest[i] == entries[i]);
            }
        }
    }
}

} // verus!
