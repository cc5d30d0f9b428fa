//! The TOML side of a conversion: the document tree that the parser hands over
//! and the printer takes.

use vstd::prelude::*;
use crate::toml_io::Float;

verus! {

/// The deepest nesting of arrays and tables that a conversion walks. A
/// text, a document or a host value that nests deeper is refused with a
/// typed error, and no walk of the library goes deeper than this.
pub const MAX_DEPTH: usize = 128;

/// A calendar date as a TOML literal spells it.
#[derive(Clone, Copy, Debug, PartialEq, Eq, Structural)]
pub struct Date {
    pub year: u16,
    pub month: u8,
    pub day: u8,
}

/// A time of day as a TOML literal spells it, with nanosecond resolution.
#[derive(Clone, Copy, Debug, PartialEq, Eq, Structural)]
pub struct Time {
    pub hour: u8,
    pub minute: u8,
    pub second: u8,
    pub nanosecond: u32,
}

/// The offset from UTC that ends a zoned TOML date-time.
#[derive(Clone, Copy, Debug, PartialEq, Eq, Structural)]
pub enum Offset {
    /// The literal `Z`.
    Z,
    /// A signed hour and a minute, `+02:30`.
    Custom { hours: i8, minutes: u8 },
}

/// A TOML date-time: any of the four forms, told apart by what is present.
#[derive(Clone, Copy, Debug, PartialEq, Eq, Structural)]
pub struct DateTimeValue {
    pub date: Option<Date>,
    pub time: Option<Time>,
    pub offset: Option<Offset>,
}

/// A node of a TOML document.
///
/// A table keeps its entries in document order. A float is held as the
/// parser made it.
#[derive(Debug, PartialEq)]
pub enum TomlValue {
    String(String),
    Integer(i64),
    Float(Float),
    Boolean(bool),
    Datetime(DateTimeValue),
    Array(Vec<TomlValue>),
    Table(Vec<(String, TomlValue)>),
}

/// The mathematical model of a [`TomlValue`].
pub enum TomlView {
    String(Seq<char>),
    Integer(i64),
    Float(Float),
    Boolean(bool),
    Datetime(DateTimeValue),
    Array(Seq<TomlView>),
    Table(Seq<(Seq<char>, TomlView)>),
}

/// What a [`TomlValue`] stands for, node by node.
pub open spec fn value_model(v: TomlValue) -> TomlView
    decreases v,
{
    match v {
        TomlValue::String(s) => TomlView::String(s@),
        TomlValue::Integer(i) => TomlView::Integer(i),
        TomlValue::Float(bits) => TomlView::Float(bits),
        TomlValue::Boolean(b) => TomlView::Boolean(b),
        TomlValue::Datetime(d) => TomlView::Datetime(d),
        TomlValue::Array(items) => TomlView::Array(
            Seq::new(
                items@.len(),
                |i: int|
                    if 0 <= i < items@.len() {
                        value_model(items@[i])
                    } else {
                        TomlView::Boolean(false)
                    },
            ),
        ),
        TomlValue::Table(entries) => TomlView::Table(
            Seq::new(
                entries@.len(),
                |i: int|
                    if 0 <= i < entries@.len() {
                        (entries@[i].0@, value_model(entries@[i].1))
                    } else {
                        (Seq::empty(), TomlView::Boolean(false))
                    },
            ),
        ),
    }
}

impl View for TomlValue {
    type V = TomlView;

    open spec fn view(&self) -> TomlView {
        value_model(*self)
    }
}

/// The models of a run of values, one for one.
pub open spec fn values_view(items: Seq<TomlValue>) -> Seq<TomlView> {
    Seq::new(items.len(), |i: int| items[i]@)
}

/// The models of a run of table entries, one for one.
pub open spec fn entries_view(entries: Seq<(String, TomlValue)>) -> Seq<(Seq<char>, TomlView)> {
    Seq::new(entries.len(), |i: int| (entries[i].0@, entries[i].1@))
}

/// The keys of a run of table entries, in order.
pub open spec fn keys_of(entries: Seq<(Seq<char>, TomlView)>) -> Seq<Seq<char>> {
    Seq::new(entries.len(), |i: int| entries[i].0)
}

/// An array's model is the run of its items' models.
pub proof fn lemma_array_view(items: Vec<TomlValue>)
    ensures
        TomlValue::Array(items)@ == TomlView::Array(values_view(items@)),
{
    assert(TomlValue::Array(items)@->Array_0 =~= values_view(items@));
}

/// A table's model is the run of its entries' models.
pub proof fn lemma_table_view(entries: Vec<(String, TomlValue)>)
    ensures
        TomlValue::Table(entries)@ == TomlView::Table(entries_view(entries@)),
{
    assert(TomlValue::Table(entries)@->Table_0 =~= entries_view(entries@));
}

impl TomlView {
    /// How deep arrays and tables nest: 0 for a scalar, one more than the
    /// deepest item for an array or a table.
    pub open spec fn depth(self) -> nat
        decreases self,
    {
        match self {
            TomlView::Array(items) => 1 + depth_of_items(items),
            TomlView::Table(entries) => 1 + depth_of_entries(entries),
            _ => 0,
        }
    }

    /// No table, at any level, holds one key twice.
    pub open spec fn keys_unique(self) -> bool
        decreases self,
    {
        match self {
            TomlView::Array(items) => forall|i: int|
                0 <= i < items.len() ==> (#[trigger] items[i]).keys_unique(),
            TomlView::Table(entries) => {
                &&& keys_of(entries).no_duplicates()
                &&& forall|i: int|
                    0 <= i < entries.len() ==> (#[trigger] entries[i]).1.keys_unique()
            },
            _ => true,
        }
    }
}

/// The greatest depth among a run of values, 0 for none.
pub open spec fn depth_of_items(items: Seq<TomlView>) -> nat
    decreases items,
{
    if items.len() == 0 {
        0
    } else {
        let rest = depth_of_items(items.drop_last());
        let last = items.last().depth();
        if last > rest {
            last
        } else {
            rest
        }
    }
}

/// The greatest depth among the values of a run of entries, 0 for none.
pub open spec fn depth_of_entries(entries: Seq<(Seq<char>, TomlView)>) -> nat
    decreases entries,
{
    if entries.len() == 0 {
        0
    } else {
        let rest = depth_of_entries(entries.drop_last());
        let last = entries.last().1.depth();
        if last > rest {
            last
        } else {
            rest
        }
    }
}

/// A run of items nests no deeper than `n` exactly if none of its items does.
pub proof fn lemma_depth_of_items(items: Seq<TomlView>, n: nat)
    ensures
        depth_of_items(items) <= n <==> forall|i: int|
            0 <= i < items.len() ==> (#[trigger] items[i]).depth() <= n,
    decreases items.len(),
{
    if items.len() > 0 {
        let rest = items.drop_last();
        lemma_depth_of_items(rest, n);
        if depth_of_items(items) <= n {
            assert forall|i: int| 0 <= i < items.len() implies (#[trigger] items[i]).depth()
                <= n by {
                if i < items.len() - 1 {
                    assert(rest[i] == items[i]);
                }
            }
        } else {
            if items.last().depth() <= n {
                let i = choose|i: int| 0 <= i < rest.len() && !((#[trigger] rest[i]).depth() <= n);
                assert(rest[i] == items[i]);
            }
        }
    }
}

/// A run of entries nests no deeper than `n` exactly if none of its values
/// does.
pub proof fn lemma_depth_of_entries(entries: Seq<(Seq<char>, TomlView)>, n: nat)
    ensures
        depth_of_entries(entries) <= n <==> forall|i: int|
            0 <= i < entries.len() ==> (#[trigger] entries[i]).1.depth() <= n,
    decreases entries.len(),
{
    if entries.len() > 0 {
        let rest = entries.drop_last();
        lemma_depth_of_entries(rest, n);
        if depth_of_entries(entries) <= n {
            assert forall|i: int| 0 <= i < entries.len() implies (#[trigger] entries[i]).1.depth()
                <= n by {
                if i < entries.len() - 1 {
                    assert(rest[i] == entries[i]);
                }
            }
        } else {
            if entries.last().1.depth() <= n {
                let i = choose|i: int|
                    0 <= i < rest.len() && !((#[trigger] rest[i]).1.depth() <= n);
                assert(rest[i] == entries[i]);
            }
        }
    }
}

} // verus!
