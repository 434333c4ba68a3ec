//! The loosely typed property maps used by both tray protocols.
//!
//! `org.kde.StatusNotifierItem` and `com.canonical.dbusmenu` both describe
//! their state as string-keyed property dictionaries (`a{sv}`) whose contents
//! depend on the application and the library version it was built against.
//! [`PropValue`] is the domain-side decoding of those dictionaries.

use vstd::prelude::*;

use crate::icon::{Pixmap, SpecPixmap};
use crate::sni::{SpecToolTip, ToolTip};

verus! {

/// A decoded property value. Anything we do not understand is kept as
/// [`PropValue::Unsupported`] with its signature, so unknown additions to the
/// specs are ignored instead of breaking the tray.
#[derive(Debug, PartialEq)]
pub enum PropValue {
    Str(String),
    Bool(bool),
    Int(i64),
    UInt(u64),
    /// A double, carried as its IEEE 754 bit pattern: no decision reads it.
    Double(u64),
    Strings(Vec<String>),
    /// Key chords as sent by dbusmenu's `shortcut` property (`aas`).
    StringLists(Vec<Vec<String>>),
    Bytes(Vec<u8>),
    Pixmaps(Vec<Pixmap>),
    ToolTip(Box<ToolTip>),
    Unsupported(String),
}

/// The mathematical value of a [`PropValue`].
pub enum SpecPropValue {
    Str(Seq<char>),
    Bool(bool),
    Int(i64),
    UInt(u64),
    Double(u64),
    Strings(Seq<Seq<char>>),
    StringLists(Seq<Seq<Seq<char>>>),
    Bytes(Seq<u8>),
    Pixmaps(Seq<SpecPixmap>),
    ToolTip(SpecToolTip),
    Unsupported(Seq<char>),
}

impl DeepView for PropValue {
    type V = SpecPropValue;

    open spec fn deep_view(&self) -> SpecPropValue {
        match self {
            PropValue::Str(v) => SpecPropValue::Str(v@),
            PropValue::Bool(v) => SpecPropValue::Bool(*v),
            PropValue::Int(v) => SpecPropValue::Int(*v),
            PropValue::UInt(v) => SpecPropValue::UInt(*v),
            PropValue::Double(v) => SpecPropValue::Double(*v),
            PropValue::Strings(v) => SpecPropValue::Strings(v.deep_view()),
            PropValue::StringLists(v) => SpecPropValue::StringLists(v.deep_view()),
            PropValue::Bytes(v) => SpecPropValue::Bytes(v@),
            PropValue::Pixmaps(v) => SpecPropValue::Pixmaps(v.deep_view()),
            PropValue::ToolTip(v) => SpecPropValue::ToolTip(v.deep_view()),
            PropValue::Unsupported(v) => SpecPropValue::Unsupported(v@),
        }
    }
}

impl View for PropValue {
    type V = SpecPropValue;

    open spec fn view(&self) -> SpecPropValue {
        self.deep_view()
    }
}

impl Clone for PropValue {
    fn clone(&self) -> (r: Self)
        ensures
            r@ == self@,
    {
        match self {
            PropValue::Str(v) => PropValue::Str(v.clone()),
            PropValue::Bool(v) => PropValue::Bool(*v),
            PropValue::Int(v) => PropValue::Int(*v),
            PropValue::UInt(v) => PropValue::UInt(*v),
            PropValue::Double(v) => PropValue::Double(*v),
            PropValue::Strings(v) => {
                let c = v.clone();
                assert(c.deep_view() =~= v.deep_view());
                PropValue::Strings(c)
            },
            PropValue::StringLists(v) => {
                let c = clone_string_lists(v);
                PropValue::StringLists(c)
            },
            PropValue::Bytes(v) => PropValue::Bytes(v.clone()),
            PropValue::Pixmaps(v) => {
                let c = v.clone();
                assert(c.deep_view() =~= v.deep_view());
                PropValue::Pixmaps(c)
            },
            PropValue::ToolTip(v) => PropValue::ToolTip(Box::new((**v).clone())),
            PropValue::Unsupported(v) => PropValue::Unsupported(v.clone()),
        }
    }
}

/// A copy of a list of string lists.
pub fn clone_string_lists(v: &Vec<Vec<String>>) -> (r: Vec<Vec<String>>)
    ensures
        r.deep_view() == v.deep_view(),
{
    let mut r: Vec<Vec<String>> = Vec::new();
    let mut i: usize = 0;
    while i < v.len()
        invariant
            i <= v@.len(),
            r.deep_view() == v.deep_view().take(i as int),
        decreases v.len() - i,
    {
        let c = v[i].clone();
        assert(c.deep_view() =~= v@[i as int].deep_view());
        let ghost before = r.deep_view();
        r.push(c);
        assert(r.deep_view() =~= before.push(v.deep_view()[i as int]));
        assert(v.deep_view().take(i + 1) =~= v.deep_view().take(i as int).push(
            v.deep_view()[i as int],
        ));
        i += 1;
    }
    assert(v.deep_view().take(v@.len() as int) =~= v.deep_view());
    r
}

/// The text of a value: its string, or the empty text for anything else.
pub open spec fn prop_text(v: SpecPropValue) -> Seq<char> {
    match v {
        SpecPropValue::Str(s) => s,
        _ => seq![],
    }
}

/// The boolean of a value, or `default` for anything else.
pub open spec fn prop_bool(v: SpecPropValue, default: bool) -> bool {
    match v {
        SpecPropValue::Bool(b) => b,
        _ => default,
    }
}

/// The integer of a value, if it is one that fits `i64`.
pub open spec fn prop_int(v: SpecPropValue) -> Option<i64> {
    match v {
        SpecPropValue::Int(i) => Some(i),
        SpecPropValue::UInt(u) => if u <= i64::MAX as u64 {
            Some(u as i64)
        } else {
            None
        },
        _ => None,
    }
}

/// The pixmaps of a value, or none at all for anything else.
pub open spec fn prop_pixmaps(v: SpecPropValue) -> Seq<SpecPixmap> {
    match v {
        SpecPropValue::Pixmaps(p) => p,
        _ => seq![],
    }
}

impl PropValue {
    pub fn as_str(&self) -> (r: Option<&str>)
        ensures
            match self@ {
                SpecPropValue::Str(s) => r is Some && r->0@ == s,
                _ => r is None,
            },
    {
        match self {
            PropValue::Str(value) => Some(value.as_str()),
            _ => None,
        }
    }

    pub fn as_bool(&self) -> (r: Option<bool>)
        ensures
            match self@ {
                SpecPropValue::Bool(b) => r == Some(b),
                _ => r is None,
            },
    {
        match self {
            PropValue::Bool(value) => Some(*value),
            _ => None,
        }
    }

    pub fn as_int(&self) -> (r: Option<i64>)
        ensures
            r == prop_int(self@),
    {
        match self {
            PropValue::Int(value) => Some(*value),
            PropValue::UInt(value) => if *value <= i64::MAX as u64 {
                Some(*value as i64)
            } else {
                None
            },
            _ => None,
        }
    }

    pub fn as_pixmaps(&self) -> (r: Option<&[Pixmap]>)
        ensures
            match self {
                PropValue::Pixmaps(p) => r is Some && r->0@ == p@,
                _ => r is None,
            },
    {
        match self {
            PropValue::Pixmaps(value) => Some(value.as_slice()),
            _ => None,
        }
    }

    pub fn as_strings(&self) -> (r: Option<&[String]>)
        ensures
            match self {
                PropValue::Strings(p) => r is Some && r->0@ == p@,
                _ => r is None,
            },
    {
        match self {
            PropValue::Strings(value) => Some(value.as_slice()),
            _ => None,
        }
    }

    pub fn as_string_lists(&self) -> (r: Option<&[Vec<String>]>)
        ensures
            match self {
                PropValue::StringLists(p) => r is Some && r->0@ == p@,
                _ => r is None,
            },
    {
        match self {
            PropValue::StringLists(value) => Some(value.as_slice()),
            _ => None,
        }
    }
}

impl From<String> for PropValue {
    fn from(value: String) -> Self {
        PropValue::Str(value)
    }
}

impl vstd::std_specs::convert::FromSpecImpl<String> for PropValue {
    open spec fn obeys_from_spec() -> bool {
        true
    }

    open spec fn from_spec(v: String) -> PropValue {
        PropValue::Str(v)
    }
}

impl From<bool> for PropValue {
    fn from(value: bool) -> Self {
        PropValue::Bool(value)
    }
}

impl vstd::std_specs::convert::FromSpecImpl<bool> for PropValue {
    open spec fn obeys_from_spec() -> bool {
        true
    }

    open spec fn from_spec(v: bool) -> PropValue {
        PropValue::Bool(v)
    }
}

impl From<i64> for PropValue {
    fn from(value: i64) -> Self {
        PropValue::Int(value)
    }
}

impl vstd::std_specs::convert::FromSpecImpl<i64> for PropValue {
    open spec fn obeys_from_spec() -> bool {
        true
    }

    open spec fn from_spec(v: i64) -> PropValue {
        PropValue::Int(v)
    }
}

/// A decoded property dictionary: assignments applied in order.
pub type PropMap = Vec<(String, PropValue)>;

} // verus!
