//! Telling the kind of a host value.
//!
//! A host that hands over opaque values knows each by the identity of its
//! type. [`PyTypeLookup`] holds the identities of the types that the
//! conversion knows and maps an identity to a [`Kind`] by comparing, without
//! asking anything of the value. A [`HostValue`] already carries its kind:
//! [`classify`] reads it off.

use vstd::prelude::*;
use crate::host::{HostValue, HostView};

verus! {

/// What a host value is, as far as the conversion tells values apart.
#[derive(Clone, Copy, Debug, PartialEq, Eq, Structural)]
pub enum Kind {
    Null,
    Bool,
    Int,
    Float,
    Str,
    Bytes,
    List,
    Tuple,
    Dict,
    DateTime,
    Date,
    Time,
    Unknown,
}

/// The identities of the host's types, one for each type that has a kind.
#[derive(Clone, Copy, Debug, PartialEq, Eq, Structural)]
pub struct PyTypeLookup {
    pub none: usize,
    pub int: usize,
    pub bool: usize,
    pub float: usize,
    pub string: usize,
    pub bytes: usize,
    pub bytearray: usize,
    pub list: usize,
    pub tuple: usize,
    pub dict: usize,
    pub datetime: usize,
    pub date: usize,
    pub time: usize,
}

impl PyTypeLookup {
    /// The kind that goes with the type identity `ob_type`: that of the first
    /// entry equal to it, in the order null, int, bool, float, string,
    /// mapping, list, tuple, date-time, date, time, bytes; `Unknown` where no
    /// entry is equal to it.
    pub open spec fn spec_kind_of(self, ob_type: usize) -> Kind {
        if ob_type == self.none {
            Kind::Null
        } else if ob_type == self.int {
            Kind::Int
        } else if ob_type == self.bool {
            Kind::Bool
        } else if ob_type == self.float {
            Kind::Float
        } else if ob_type == self.string {
            Kind::Str
        } else if ob_type == self.dict {
            Kind::Dict
        } else if ob_type == self.list {
            Kind::List
        } else if ob_type == self.tuple {
            Kind::Tuple
        } else if ob_type == self.datetime {
            Kind::DateTime
        } else if ob_type == self.date {
            Kind::Date
        } else if ob_type == self.time {
            Kind::Time
        } else if ob_type == self.bytes || ob_type == self.bytearray {
            Kind::Bytes
        } else {
            Kind::Unknown
        }
    }

    /// Hands out the table that `slot` holds, filling the slot with `fresh`
    /// first where it is empty. A slot that holds a table keeps it: the table
    /// is made once and not replaced.
    pub fn cached(slot: &mut Option<PyTypeLookup>, fresh: PyTypeLookup) -> (table: PyTypeLookup)
        ensures
            *old(slot) matches Some(kept) ==> table == kept && *final(slot) == *old(slot),
            *old(slot) is None ==> table == fresh && *final(slot) == Some(fresh),
    {
        match *slot {
            Some(kept) => kept,
            None => {
                *slot = Some(fresh);
                fresh
            },
        }
    }

    /// Tells the kind of a value from the identity of its type, by a fixed
    /// number of comparisons.
    pub fn kind_of(&self, ob_type: usize) -> (kind: Kind)
        ensures
            kind == self.spec_kind_of(ob_type),
    {
        if ob_type == self.none {
            Kind::Null
        } else if ob_type == self.int {
            Kind::Int
        } else if ob_type == self.bool {
            Kind::Bool
        } else if ob_type == self.float {
            Kind::Float
        } else if ob_type == self.string {
            Kind::Str
        } else if ob_type == self.dict {
            Kind::Dict
        } else if ob_type == self.list {
            Kind::List
        } else if ob_type == self.tuple {
            Kind::Tuple
        } else if ob_type == self.datetime {
            Kind::DateTime
        } else if ob_type == self.date {
            Kind::Date
        } else if ob_type == self.time {
            Kind::Time
        } else if ob_type == self.bytes || ob_type == self.bytearray {
            Kind::Bytes
        } else {
            Kind::Unknown
        }
    }
}

/// The kind of a host value.
pub open spec fn kind_of_view(h: HostView) -> Kind {
    match h {
        HostView::Null => Kind::Null,
        HostView::Bool(_) => Kind::Bool,
        HostView::Int(_) => Kind::Int,
        HostView::Float(_) => Kind::Float,
        HostView::Str(_) => Kind::Str,
        HostView::Bytes(_) => Kind::Bytes,
        HostView::List(_) => Kind::List,
        HostView::Tuple(_) => Kind::Tuple,
        HostView::Dict(_) => Kind::Dict,
        HostView::DateTime(_) => Kind::DateTime,
        HostView::Date(_) => Kind::Date,
        HostView::Time(_) => Kind::Time,
        HostView::Other { .. } => Kind::Unknown,
    }
}

/// The name of the host's type for a kind, as messages spell it.
pub open spec fn class_name_of(kind: Kind) -> Seq<char> {
    match kind {
        Kind::Null => "NoneType"@,
        Kind::Bool => "bool"@,
        Kind::Int => "int"@,
        Kind::Float => "float"@,
        Kind::Str => "str"@,
        Kind::Bytes => "bytes"@,
        Kind::List => "list"@,
        Kind::Tuple => "tuple"@,
        Kind::Dict => "dict"@,
        Kind::DateTime => "datetime"@,
        Kind::Date => "date"@,
        Kind::Time => "time"@,
        Kind::Unknown => "unknown"@,
    }
}

/// Tells the kind of a host value, in one step.
pub fn classify(value: &HostValue) -> (kind: Kind)
    ensures
        kind == kind_of_view(value@),
{
    match value {
        HostValue::Null => Kind::Null,
        HostValue::Bool(_) => Kind::Bool,
        HostValue::Int(_) => Kind::Int,
        HostValue::Float(_) => Kind::Float,
        HostValue::Str(_) => Kind::Str,
        HostValue::Bytes(_) => Kind::Bytes,
        HostValue::List(_) => Kind::List,
        HostValue::Tuple(_) => Kind::Tuple,
        HostValue::Dict(_) => Kind::Dict,
        HostValue::DateTime(_) => Kind::DateTime,
        HostValue::Date(_) => Kind::Date,
        HostValue::Time(_) => Kind::Time,
        HostValue::Other { .. } => Kind::Unknown,
    }
}

/// The name of the host's type for a kind.
pub fn class_name(kind: Kind) -> (name: &'static str)
    ensures
        name@ == class_name_of(kind),
{
    match kind {
        Kind::Null => "NoneType",
        Kind::Bool => "bool",
        Kind::Int => "int",
        Kind::Float => "float",
        Kind::Str => "str",
        Kind::Bytes => "bytes",
        Kind::List => "list",
        Kind::Tuple => "tuple",
        Kind::Dict => "dict",
        Kind::DateTime => "datetime",
        Kind::Date => "date",
        Kind::Time => "time",
        Kind::Unknown => "unknown",
    }
}

} // verus!
