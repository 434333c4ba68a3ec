//! Decoding of D-Bus variants into [`PropValue`] and menu layouts.
//!
//! Both tray protocols hand out `a{sv}` property bags whose contents depend
//! on the toolkit and version an application was built with. This is the one
//! place where those variants are interpreted; everything downstream sees
//! typed values and never fails on a shape it does not know.
//!
//! A [`WireValue`] holds what a D-Bus variant carries, as plain values: the
//! caller converts the bus library's variants into it, and the decisions are
//! taken here.

use vstd::prelude::*;

use crate::icon::{Pixmap, SpecPixmap};
use crate::menu::{leaf, node_with_all, MenuNode, MenuTree, SpecMenuNode, SpecMenuTree};
use crate::props::{PropMap, PropValue, SpecPropValue};
use crate::sni::{SpecToolTip, ToolTip};
use crate::text::same_text;

verus! {

/// A D-Bus variant as plain values.
#[derive(Debug, PartialEq)]
pub enum WireValue {
    Bool(bool),
    U8(u8),
    I16(i16),
    U16(u16),
    I32(i32),
    U32(u32),
    I64(i64),
    U64(u64),
    /// A double, carried as its IEEE 754 bit pattern.
    F64(u64),
    Str(String),
    ObjectPath(String),
    Signature(String),
    /// A variant wrapped in another one.
    Value(Box<WireValue>),
    Array { element_signature: String, elements: Vec<WireValue> },
    /// A dictionary, with the text its debug rendering gives.
    Dict { entries: Vec<(WireValue, WireValue)>, rendered: String },
    Structure { signature: String, fields: Vec<WireValue> },
    /// Anything else, by its debug rendering.
    Other(String),
}

/// The mathematical value of a [`WireValue`].
pub enum SpecWire {
    Bool(bool),
    U8(u8),
    I16(i16),
    U16(u16),
    I32(i32),
    U32(u32),
    I64(i64),
    U64(u64),
    F64(u64),
    Str(Seq<char>),
    ObjectPath(Seq<char>),
    Signature(Seq<char>),
    Value(Box<SpecWire>),
    Array { element_signature: Seq<char>, elements: Seq<SpecWire> },
    Dict { entries: Seq<(SpecWire, SpecWire)>, rendered: Seq<char> },
    Structure { signature: Seq<char>, fields: Seq<SpecWire> },
    Other(Seq<char>),
}

pub open spec fn wire_view(w: WireValue) -> SpecWire
    decreases w,
{
    match w {
        WireValue::Bool(b) => SpecWire::Bool(b),
        WireValue::U8(x) => SpecWire::U8(x),
        WireValue::I16(x) => SpecWire::I16(x),
        WireValue::U16(x) => SpecWire::U16(x),
        WireValue::I32(x) => SpecWire::I32(x),
        WireValue::U32(x) => SpecWire::U32(x),
        WireValue::I64(x) => SpecWire::I64(x),
        WireValue::U64(x) => SpecWire::U64(x),
        WireValue::F64(x) => SpecWire::F64(x),
        WireValue::Str(s) => SpecWire::Str(s@),
        WireValue::ObjectPath(s) => SpecWire::ObjectPath(s@),
        WireValue::Signature(s) => SpecWire::Signature(s@),
        WireValue::Value(inner) => SpecWire::Value(Box::new(wire_view(*inner))),
        WireValue::Array { element_signature, elements } => SpecWire::Array {
            element_signature: element_signature@,
            elements: Seq::new(
                elements@.len(),
                |i: int|
                    if 0 <= i < elements@.len() {
                        wire_view(elements@[i])
                    } else {
                        SpecWire::Bool(false)
                    },
            ),
        },
        WireValue::Dict { entries, rendered } => SpecWire::Dict {
            entries: Seq::new(
                entries@.len(),
                |i: int|
                    if 0 <= i < entries@.len() {
                        (wire_view(entries@[i].0), wire_view(entries@[i].1))
                    } else {
                        (SpecWire::Bool(false), SpecWire::Bool(false))
                    },
            ),
            rendered: rendered@,
        },
        WireValue::Structure { signature, fields } => SpecWire::Structure {
            signature: signature@,
            fields: Seq::new(
                fields@.len(),
                |i: int|
                    if 0 <= i < fields@.len() {
                        wire_view(fields@[i])
                    } else {
                        SpecWire::Bool(false)
                    },
            ),
        },
        WireValue::Other(s) => SpecWire::Other(s@),
    }
}

impl View for WireValue {
    type V = SpecWire;

    open spec fn view(&self) -> SpecWire {
        wire_view(*self)
    }
}

impl DeepView for WireValue {
    type V = SpecWire;

    open spec fn deep_view(&self) -> SpecWire {
        wire_view(*self)
    }
}

/// The bytes among decoded values: every unsigned value that fits a byte.
pub open spec fn bytes_in(decoded: Seq<SpecPropValue>) -> Seq<u8>
    decreases decoded.len(),
{
    if decoded.len() == 0 {
        seq![]
    } else {
        let prev = bytes_in(decoded.drop_last());
        match decoded.last() {
            SpecPropValue::UInt(b) => if b <= 255 {
                prev.push(b as u8)
            } else {
                prev
            },
            _ => prev,
        }
    }
}

/// The texts among decoded values.
pub open spec fn texts_in(decoded: Seq<SpecPropValue>) -> Seq<Seq<char>>
    decreases decoded.len(),
{
    if decoded.len() == 0 {
        seq![]
    } else {
        let prev = texts_in(decoded.drop_last());
        match decoded.last() {
            SpecPropValue::Str(s) => prev.push(s),
            _ => prev,
        }
    }
}

/// The lists of texts among decoded values.
pub open spec fn lists_in(decoded: Seq<SpecPropValue>) -> Seq<Seq<Seq<char>>>
    decreases decoded.len(),
{
    if decoded.len() == 0 {
        seq![]
    } else {
        let prev = lists_in(decoded.drop_last());
        match decoded.last() {
            SpecPropValue::Strings(l) => prev.push(l),
            _ => prev,
        }
    }
}

/// The pixmaps among decoded values: each value that decoded to exactly one.
pub open spec fn pixmaps_in(decoded: Seq<SpecPropValue>) -> Seq<SpecPixmap>
    decreases decoded.len(),
{
    if decoded.len() == 0 {
        seq![]
    } else {
        let prev = pixmaps_in(decoded.drop_last());
        match decoded.last() {
            SpecPropValue::Pixmaps(l) => if l.len() == 1 {
                prev.push(l[0])
            } else {
                prev
            },
            _ => prev,
        }
    }
}

/// An array decoded by its element signature: `ay` bytes, `as` and `ao`
/// texts, `aas` key chords, `a(iiay)` pixmaps.
pub open spec fn array_prop(signature: Seq<char>, decoded: Seq<SpecPropValue>) -> SpecPropValue {
    if signature == "y"@ {
        SpecPropValue::Bytes(bytes_in(decoded))
    } else if signature == "s"@ || signature == "o"@ {
        SpecPropValue::Strings(texts_in(decoded))
    } else if signature == "as"@ {
        SpecPropValue::StringLists(lists_in(decoded))
    } else if signature == "(iiay)"@ {
        SpecPropValue::Pixmaps(pixmaps_in(decoded))
    } else {
        SpecPropValue::Unsupported(signature)
    }
}

/// A structure decoded by its shape: `(iiay)` is one pixmap and
/// `(sa(iiay)ss)` a tooltip; anything else is kept by its signature.
pub open spec fn structure_prop(
    signature: Seq<char>,
    fields: Seq<SpecWire>,
    decoded: Seq<SpecPropValue>,
) -> SpecPropValue {
    if fields.len() == 3 && fields[0] is I32 && fields[1] is I32 && decoded[2] is Bytes {
        SpecPropValue::Pixmaps(
            seq![
                SpecPixmap {
                    width: fields[0]->I32_0,
                    height: fields[1]->I32_0,
                    data: decoded[2]->Bytes_0,
                },
            ],
        )
    } else if fields.len() == 4 && decoded[0] is Str && decoded[1] is Pixmaps && decoded[2] is Str
        && decoded[3] is Str {
        SpecPropValue::ToolTip(
            SpecToolTip {
                icon_name: decoded[0]->Str_0,
                icon_pixmaps: decoded[1]->Pixmaps_0,
                title: decoded[2]->Str_0,
                description: decoded[3]->Str_0,
            },
        )
    } else {
        SpecPropValue::Unsupported(signature)
    }
}

/// Each variant of `s` decoded.
pub open spec fn props_of(s: Seq<SpecWire>) -> Seq<SpecPropValue>
    decreases s,
{
    Seq::new(
        s.len(),
        |i: int|
            if 0 <= i < s.len() {
                prop_of(s[i])
            } else {
                SpecPropValue::Bool(false)
            },
    )
}

/// The property value a variant decodes to.
pub open spec fn prop_of(v: SpecWire) -> SpecPropValue
    decreases v,
{
    match v {
        SpecWire::Bool(b) => SpecPropValue::Bool(b),
        SpecWire::U8(x) => SpecPropValue::UInt(x as u64),
        SpecWire::I16(x) => SpecPropValue::Int(x as i64),
        SpecWire::U16(x) => SpecPropValue::UInt(x as u64),
        SpecWire::I32(x) => SpecPropValue::Int(x as i64),
        SpecWire::U32(x) => SpecPropValue::UInt(x as u64),
        SpecWire::I64(x) => SpecPropValue::Int(x),
        SpecWire::U64(x) => SpecPropValue::UInt(x),
        SpecWire::F64(bits) => SpecPropValue::Double(bits),
        SpecWire::Str(s) => SpecPropValue::Str(s),
        SpecWire::ObjectPath(s) => SpecPropValue::Str(s),
        SpecWire::Signature(s) => SpecPropValue::Unsupported(s),
        // Variants wrapped one level deeper are unwrapped.
        SpecWire::Value(inner) => prop_of(*inner),
        SpecWire::Array { element_signature, elements } => array_prop(
            element_signature,
            props_of(elements),
        ),
        SpecWire::Structure { signature, fields } => structure_prop(
            signature,
            fields,
            props_of(fields),
        ),
        SpecWire::Dict { entries, rendered } => SpecPropValue::Unsupported(rendered),
        SpecWire::Other(rendered) => SpecPropValue::Unsupported(rendered),
    }
}


fn bytes_from(decoded: &Vec<PropValue>) -> (r: Vec<u8>)
    ensures
        r@ == bytes_in(decoded.deep_view()),
{
    let ghost d = decoded.deep_view();
    let mut out: Vec<u8> = Vec::new();
    let mut i: usize = 0;
    assert(d.take(0) =~= seq![]);
    while i < decoded.len()
        invariant
            i <= d.len(),
            d == decoded.deep_view(),
            out@ == bytes_in(d.take(i as int)),
        decreases decoded.len() - i,
    {
        assert(d.take(i + 1).drop_last() =~= d.take(i as int));
        assert(d.take(i + 1).last() == decoded@[i as int]@);
        match &decoded[i] {
            PropValue::UInt(b) => {
                if *b <= 255 {
                    out.push(*b as u8);
                }
            },
            _ => {},
        }
        i += 1;
    }
    assert(d.take(d.len() as int) =~= d);
    out
}

fn texts_from(decoded: &Vec<PropValue>) -> (r: Vec<String>)
    ensures
        r.deep_view() == texts_in(decoded.deep_view()),
{
    let ghost d = decoded.deep_view();
    let mut out: Vec<String> = Vec::new();
    let mut i: usize = 0;
    assert(d.take(0) =~= seq![]);
    while i < decoded.len()
        invariant
            i <= d.len(),
            d == decoded.deep_view(),
            out.deep_view() == texts_in(d.take(i as int)),
        decreases decoded.len() - i,
    {
        assert(d.take(i + 1).drop_last() =~= d.take(i as int));
        assert(d.take(i + 1).last() == decoded@[i as int]@);
        match &decoded[i] {
            PropValue::Str(text) => {
                let ghost before = out.deep_view();
                out.push(text.clone());
                assert(out.deep_view() =~= before.push(text@));
            },
            _ => {},
        }
        i += 1;
    }
    assert(d.take(d.len() as int) =~= d);
    out
}

fn lists_from(decoded: &Vec<PropValue>) -> (r: Vec<Vec<String>>)
    ensures
        r.deep_view() == lists_in(decoded.deep_view()),
{
    let ghost d = decoded.deep_view();
    let mut out: Vec<Vec<String>> = Vec::new();
    let mut i: usize = 0;
    assert(d.take(0) =~= seq![]);
    while i < decoded.len()
        invariant
            i <= d.len(),
            d == decoded.deep_view(),
            out.deep_view() == lists_in(d.take(i as int)),
        decreases decoded.len() - i,
    {
        assert(d.take(i + 1).drop_last() =~= d.take(i as int));
        assert(d.take(i + 1).last() == decoded@[i as int]@);
        match &decoded[i] {
            PropValue::Strings(list) => {
                let ghost before = out.deep_view();
                let copy = list.clone();
                assert(copy.deep_view() =~= list.deep_view());
                out.push(copy);
                assert(out.deep_view() =~= before.push(list.deep_view()));
            },
            _ => {},
        }
        i += 1;
    }
    assert(d.take(d.len() as int) =~= d);
    out
}

fn pixmaps_from(decoded: &Vec<PropValue>) -> (r: Vec<Pixmap>)
    ensures
        r.deep_view() == pixmaps_in(decoded.deep_view()),
{
    let ghost d = decoded.deep_view();
    let mut out: Vec<Pixmap> = Vec::new();
    let mut i: usize = 0;
    assert(d.take(0) =~= seq![]);
    while i < decoded.len()
        invariant
            i <= d.len(),
            d == decoded.deep_view(),
            out.deep_view() == pixmaps_in(d.take(i as int)),
        decreases decoded.len() - i,
    {
        assert(d.take(i + 1).drop_last() =~= d.take(i as int));
        assert(d.take(i + 1).last() == decoded@[i as int]@);
        match &decoded[i] {
            PropValue::Pixmaps(list) => {
                if list.len() == 1 {
                    let ghost before = out.deep_view();
                    let one = list[0].clone();
                    assert(list.deep_view()[0] == list@[0]@);
                    out.push(one);
                    assert(out.deep_view() =~= before.push(list.deep_view()[0]));
                }
            },
            _ => {},
        }
        i += 1;
    }
    assert(d.take(d.len() as int) =~= d);
    out
}

/// Arrays are decoded by their element signature, which is how the two
/// protocols spell their payload types:
///
/// * `ay` — raw bytes, e.g. `icon-data` of a dbusmenu entry,
/// * `as` — a list of strings,
/// * `aas` — key chords like `[["Control", "Q"]]`,
/// * `a(iiay)` — the icon pixmaps of the StatusNotifierItem spec.
fn to_prop_array(element_signature: &String, decoded: &Vec<PropValue>) -> (r: PropValue)
    ensures
        r@ == array_prop(element_signature@, decoded.deep_view()),
{
    let signature = element_signature.as_str();
    if same_text(signature, "y") {
        PropValue::Bytes(bytes_from(decoded))
    } else if same_text(signature, "s") || same_text(signature, "o") {
        PropValue::Strings(texts_from(decoded))
    } else if same_text(signature, "as") {
        PropValue::StringLists(lists_from(decoded))
    } else if same_text(signature, "(iiay)") {
        PropValue::Pixmaps(pixmaps_from(decoded))
    } else {
        PropValue::Unsupported(element_signature.clone())
    }
}

fn to_prop_structure(signature: &String, fields: &Vec<WireValue>, decoded: &Vec<PropValue>) -> (r:
    PropValue)
    requires
        decoded@.len() == fields@.len(),
    ensures
        r@ == structure_prop(
            signature@,
            fields@.map_values(|w: WireValue| w@),
            decoded.deep_view(),
        ),
{
    let ghost f = fields@.map_values(|w: WireValue| w@);
    let ghost d = decoded.deep_view();
    // `(iiay)` — one icon pixmap of the StatusNotifierItem spec.
    if fields.len() == 3 {
        assert(f[0] == fields@[0]@ && f[1] == fields@[1]@);
        assert(d[2] == decoded@[2]@);
        if let (WireValue::I32(width), WireValue::I32(height)) = (&fields[0], &fields[1]) {
            if let PropValue::Bytes(data) = &decoded[2] {
                let pixmaps = vec![Pixmap::new(*width, *height, data.clone())];
                assert(pixmaps.deep_view() =~= seq![
                    SpecPixmap { width: *width, height: *height, data: data@ },
                ]);
                return PropValue::Pixmaps(pixmaps);
            }
        }
    }
    // `(sa(iiay)ss)` — the tooltip of the StatusNotifierItem spec.
    if fields.len() == 4 {
        assert(d[0] == decoded@[0]@ && d[1] == decoded@[1]@ && d[2] == decoded@[2]@ && d[3]
            == decoded@[3]@);
        if let (
            PropValue::Str(icon_name),
            PropValue::Pixmaps(icon_pixmaps),
            PropValue::Str(title),
            PropValue::Str(description),
        ) = (&decoded[0], &decoded[1], &decoded[2], &decoded[3]) {
            let pixmaps = icon_pixmaps.clone();
            assert(pixmaps.deep_view() =~= icon_pixmaps.deep_view());
            return PropValue::ToolTip(
                Box::new(
                    ToolTip {
                        icon_name: icon_name.clone(),
                        icon_pixmaps: pixmaps,
                        title: title.clone(),
                        description: description.clone(),
                    },
                ),
            );
        }
    }
    PropValue::Unsupported(signature.clone())
}

/// Decode each variant of `values`.
fn decode_all(values: &Vec<WireValue>) -> (r: Vec<PropValue>)
    ensures
        r.deep_view() == props_of(values@.map_values(|w: WireValue| w@)),
    decreases values,
{
    let ghost s = values@.map_values(|w: WireValue| w@);
    let mut out: Vec<PropValue> = Vec::new();
    let mut i: usize = 0;
    while i < values.len()
        invariant
            i <= values@.len(),
            s == values@.map_values(|w: WireValue| w@),
            out.deep_view() == props_of(s).take(i as int),
        decreases values.len() - i,
    {
        let ghost before = out.deep_view();
        let v = to_prop_value(&values[i]);
        let ghost vv = v@;
        out.push(v);
        assert(out.deep_view() =~= before.push(vv));
        assert(props_of(s)[i as int] == prop_of(s[i as int]));
        assert(props_of(s).take(i + 1) =~= props_of(s).take(i as int).push(prop_of(s[i as int])));
        i += 1;
    }
    assert(props_of(s).take(values@.len() as int) =~= props_of(s));
    out
}

/// Decode a single variant.
pub fn to_prop_value(value: &WireValue) -> (r: PropValue)
    ensures
        r@ == prop_of(value@),
    decreases value,
{
    match value {
        WireValue::Bool(inner) => PropValue::Bool(*inner),
        WireValue::U8(inner) => PropValue::UInt(*inner as u64),
        WireValue::I16(inner) => PropValue::Int(*inner as i64),
        WireValue::U16(inner) => PropValue::UInt(*inner as u64),
        WireValue::I32(inner) => PropValue::Int(*inner as i64),
        WireValue::U32(inner) => PropValue::UInt(*inner as u64),
        WireValue::I64(inner) => PropValue::Int(*inner),
        WireValue::U64(inner) => PropValue::UInt(*inner),
        WireValue::F64(bits) => PropValue::Double(*bits),
        WireValue::Str(inner) => PropValue::Str(inner.clone()),
        WireValue::ObjectPath(inner) => PropValue::Str(inner.clone()),
        WireValue::Signature(inner) => PropValue::Unsupported(inner.clone()),
        // Variants wrapped one level deeper are unwrapped.
        WireValue::Value(inner) => {
            let r = to_prop_value(inner);
            assert(r@ == prop_of(value@));
            r
        },
        WireValue::Array { element_signature, elements } => {
            let decoded = decode_all(elements);
            let ghost s = elements@.map_values(|w: WireValue| w@);
            assert(value@->elements =~= s);
            let r = to_prop_array(element_signature, &decoded);
            assert(r@ == prop_of(value@));
            r
        },
        WireValue::Structure { signature, fields } => {
            let decoded = decode_all(fields);
            let ghost s = fields@.map_values(|w: WireValue| w@);
            assert(value@->fields =~= s);
            assert(props_of(s).len() == s.len());
            assert(decoded.deep_view().len() == decoded@.len());
            let r = to_prop_structure(signature, fields, &decoded);
            assert(r@ == prop_of(value@));
            r
        },
        WireValue::Dict { rendered, .. } => PropValue::Unsupported(rendered.clone()),
        WireValue::Other(rendered) => PropValue::Unsupported(rendered.clone()),
    }
}

/// A property dictionary as it arrives: names and variants.
pub type PropertyMap = Vec<(String, WireValue)>;

/// `(id, properties, children)`, the recursive node of `GetLayout`. Children
/// are wrapped in variants (`av`) which is what makes recursion expressible in
/// a D-Bus type signature.
pub type MenuLayout = (i32, PropertyMap, Vec<WireValue>);

/// A menu patch as `ItemsPropertiesUpdated` sends it: properties to replace
/// and property names to reset, both keyed by node id.
pub type MenuPatch = (Vec<(i32, PropMap)>, Vec<(i32, Vec<String>)>);

/// A typed property dictionary decoded.
pub open spec fn named_props(props: Seq<(Seq<char>, SpecWire)>) -> Seq<(Seq<char>, SpecPropValue)> {
    props.map_values(|p: (Seq<char>, SpecWire)| (p.0, prop_of(p.1)))
}

/// A dictionary variant decoded: entries with a text key, in order.
pub open spec fn entries_map(entries: Seq<(SpecWire, SpecWire)>) -> Seq<(Seq<char>, SpecPropValue)>
    decreases entries.len(),
{
    if entries.len() == 0 {
        seq![]
    } else {
        let prev = entries_map(entries.drop_last());
        match entries.last().0 {
            SpecWire::Str(name) => prev.push((name, prop_of(entries.last().1))),
            _ => prev,
        }
    }
}

/// The menu node a variant holds: an `(id, properties, children)` structure,
/// possibly wrapped in one more variant.
pub open spec fn wire_node(v: SpecWire) -> Option<SpecMenuNode>
    decreases v,
{
    match v {
        SpecWire::Value(inner) => match *inner {
            SpecWire::Structure { signature, fields } => fields_node(fields),
            _ => None,
        },
        SpecWire::Structure { signature, fields } => fields_node(fields),
        _ => None,
    }
}

/// The menu node of the fields of a layout structure: it needs an `i32` id
/// first; properties and children are taken when they are there.
pub open spec fn fields_node(fields: Seq<SpecWire>) -> Option<SpecMenuNode>
    decreases fields,
{
    if fields.len() >= 1 && fields[0] is I32 {
        let node = leaf(fields[0]->I32_0);
        let node = if fields.len() >= 2 && fields[1] is Dict {
            node_with_all(node, entries_map(fields[1]->entries))
        } else {
            node
        };
        if fields.len() >= 3 && fields[2] is Array {
            Some(SpecMenuNode { children: wire_nodes(fields[2]->elements), ..node })
        } else {
            Some(node)
        }
    } else {
        None
    }
}

/// The menu nodes among variants, in order; others are skipped.
pub open spec fn wire_nodes(s: Seq<SpecWire>) -> Seq<SpecMenuNode>
    decreases s,
{
    if s.len() == 0 {
        seq![]
    } else {
        let prev = wire_nodes(s.subrange(0, s.len() - 1));
        match wire_node(s[s.len() - 1]) {
            Some(n) => prev.push(n),
            None => prev,
        }
    }
}

/// Decode a property dictionary that arrived as a typed `a{sv}`.
pub fn to_prop_map(properties: &PropertyMap) -> (r: PropMap)
    ensures
        r.deep_view() == named_props(properties.deep_view()),
{
    let ghost p = properties.deep_view();
    let mut out: PropMap = Vec::new();
    let mut i: usize = 0;
    while i < properties.len()
        invariant
            i <= p.len(),
            p == properties.deep_view(),
            out.deep_view() == named_props(p).take(i as int),
        decreases properties.len() - i,
    {
        let (name, value) = &properties[i];
        assert(p[i as int] == (name@, value@));
        let decoded = to_prop_value(value);
        let ghost entry = (name@, decoded@);
        let ghost before = out.deep_view();
        out.push((name.clone(), decoded));
        assert(out.deep_view() =~= before.push(entry));
        assert(named_props(p).take(i + 1) =~= named_props(p).take(i as int).push(entry));
        i += 1;
    }
    assert(named_props(p).take(p.len() as int) =~= named_props(p));
    out
}

/// Decode a property dictionary that is still a dictionary variant, as found
/// inside the recursive `com.canonical.dbusmenu` layouts.
pub fn dict_to_prop_map(entries: &Vec<(WireValue, WireValue)>) -> (r: PropMap)
    ensures
        r.deep_view() == entries_map(entries.deep_view()),
{
    let ghost e = entries.deep_view();
    let mut out: PropMap = Vec::new();
    let mut i: usize = 0;
    assert(e.take(0) =~= seq![]);
    while i < entries.len()
        invariant
            i <= e.len(),
            e == entries.deep_view(),
            out.deep_view() == entries_map(e.take(i as int)),
        decreases entries.len() - i,
    {
        let (key, value) = &entries[i];
        assert(e[i as int] == (key@, value@));
        assert(e.take(i + 1).drop_last() =~= e.take(i as int));
        assert(e.take(i + 1).last() == e[i as int]);
        match key {
            WireValue::Str(name) => {
                let decoded = to_prop_value(value);
                let ghost entry = (name@, decoded@);
                let ghost before = out.deep_view();
                out.push((name.clone(), decoded));
                assert(out.deep_view() =~= before.push(entry));
            },
            _ => {},
        }
        i += 1;
    }
    assert(e.take(e.len() as int) =~= e);
    out
}

/// Decode one `(id, properties, children)` structure at any depth. Nodes that
/// arrive wrapped in a variant (every child of an `av` array is) are unwrapped
/// first.
pub fn node_from_value(value: &WireValue) -> (r: Option<MenuNode>)
    ensures
        match r {
            Some(n) => wire_node(value@) == Some(n@),
            None => wire_node(value@) is None,
        },
    decreases value,
{
    match value {
        WireValue::Value(inner) => match &**inner {
            WireValue::Structure { signature, fields } => {
                let r = node_from_fields(fields);
                assert(inner@->fields =~= fields.deep_view());
                r
            },
            _ => None,
        },
        WireValue::Structure { signature, fields } => {
            let r = node_from_fields(fields);
            assert(value@->fields =~= fields.deep_view());
            r
        },
        _ => None,
    }
}

fn node_from_fields(fields: &Vec<WireValue>) -> (r: Option<MenuNode>)
    ensures
        match r {
            Some(n) => fields_node(fields.deep_view()) == Some(n@),
            None => fields_node(fields.deep_view()) is None,
        },
    decreases fields,
{
    let ghost f = fields.deep_view();
    if fields.len() == 0 {
        return None;
    }
    assert(f[0] == fields@[0]@);
    let id = match &fields[0] {
        WireValue::I32(id) => *id,
        _ => {
            return None;
        },
    };
    let mut node = MenuNode::new(id);
    if fields.len() >= 2 {
        assert(f[1] == fields@[1]@);
        if let WireValue::Dict { entries, .. } = &fields[1] {
            assert(f[1]->entries =~= entries.deep_view());
            node = node.with_properties(&dict_to_prop_map(entries));
        }
    }
    if fields.len() >= 3 {
        assert(f[2] == fields@[2]@);
        if let WireValue::Array { elements, .. } = &fields[2] {
            assert(f[2]->elements =~= elements.deep_view());
            let children = nodes_from(elements);
            let ghost before = node@;
            node.children = children;
            assert(node@.children =~= wire_nodes(elements.deep_view()));
        }
    }
    Some(node)
}

fn nodes_from(values: &Vec<WireValue>) -> (r: Vec<MenuNode>)
    ensures
        r.deep_view() == wire_nodes(values.deep_view()),
    decreases values,
{
    let ghost s = values.deep_view();
    let mut out: Vec<MenuNode> = Vec::new();
    let mut i: usize = 0;
    assert(s.subrange(0, 0) =~= seq![]);
    while i < values.len()
        invariant
            i <= s.len(),
            s == values.deep_view(),
            out.deep_view() == wire_nodes(s.subrange(0, i as int)),
        decreases values.len() - i,
    {
        assert(s[i as int] == values@[i as int]@);
        let ghost sub = s.subrange(0, i + 1);
        assert(sub.subrange(0, i as int) =~= s.subrange(0, i as int));
        assert(sub[i as int] == s[i as int]);
        match node_from_value(&values[i]) {
            Some(n) => {
                let ghost nv = n@;
                let ghost before = out.deep_view();
                out.push(n);
                assert(out.deep_view() =~= before.push(nv));
            },
            None => {},
        }
        i += 1;
    }
    assert(s.subrange(0, s.len() as int) =~= s);
    out
}

/// Decode a node that arrived inside a variant of the `children` array.
pub fn child_to_node(child: &WireValue) -> (r: Option<MenuNode>)
    ensures
        match r {
            Some(n) => wire_node(child@) == Some(n@),
            None => wire_node(child@) is None,
        },
{
    node_from_value(child)
}

/// The menu a whole `GetLayout` reply describes.
pub open spec fn layout_tree(revision: u32, id: i32, props: Seq<(Seq<char>, SpecWire)>, children: Seq<
    SpecWire,
>) -> SpecMenuTree {
    SpecMenuTree {
        revision: revision as u64,
        root: SpecMenuNode {
            children: wire_nodes(children),
            ..node_with_all(leaf(id), named_props(props))
        },
    }
}

/// Decode a whole `GetLayout` reply.
pub fn layout_to_tree(revision: u32, layout: &MenuLayout) -> (r: MenuTree)
    ensures
        r@ == layout_tree(revision, layout.0, layout.1.deep_view(), layout.2.deep_view()),
{
    let (id, properties, children) = layout;
    let mut root = MenuNode::new(*id).with_properties(&to_prop_map(properties));
    root.children = nodes_from(children);
    assert(root@.children =~= wire_nodes(children.deep_view()));
    MenuTree { revision: revision as u64, root }
}

/// Convert an `ItemsPropertiesUpdated` payload into the domain patch form.
pub fn updates_to_patch(updated: &[(i32, PropertyMap)], removed: &[(i32, Vec<String>)]) -> (r:
    MenuPatch)
    ensures
        r.0.deep_view() == updated.deep_view().map_values(
            |u: (i32, Seq<(Seq<char>, SpecWire)>)| (u.0, named_props(u.1)),
        ),
        r.1.deep_view() == removed.deep_view(),
{
    let ghost u = updated.deep_view();
    let mut updates: Vec<(i32, PropMap)> = Vec::new();
    let mut i: usize = 0;
    while i < updated.len()
        invariant
            i <= u.len(),
            u == updated.deep_view(),
            updates.deep_view() == u.map_values(
                |u: (i32, Seq<(Seq<char>, SpecWire)>)| (u.0, named_props(u.1)),
            ).take(i as int),
        decreases updated.len() - i,
    {
        let (id, properties) = &updated[i];
        assert(u[i as int] == (*id, properties.deep_view()));
        let map = to_prop_map(properties);
        let ghost entry = (*id, map.deep_view());
        let ghost before = updates.deep_view();
        updates.push((*id, map));
        assert(updates.deep_view() =~= before.push(entry));
        assert(u.map_values(|u: (i32, Seq<(Seq<char>, SpecWire)>)| (u.0, named_props(u.1))).take(
            i + 1,
        ) =~= u.map_values(|u: (i32, Seq<(Seq<char>, SpecWire)>)| (u.0, named_props(u.1))).take(
            i as int,
        ).push(entry));
        i += 1;
    }
    assert(u.map_values(|u: (i32, Seq<(Seq<char>, SpecWire)>)| (u.0, named_props(u.1))).take(
        u.len() as int,
    ) =~= u.map_values(|u: (i32, Seq<(Seq<char>, SpecWire)>)| (u.0, named_props(u.1))));
    let ghost rm = removed.deep_view();
    let mut removals: Vec<(i32, Vec<String>)> = Vec::new();
    let mut k: usize = 0;
    while k < removed.len()
        invariant
            k <= rm.len(),
            rm == removed.deep_view(),
            removals.deep_view() == rm.take(k as int),
        decreases removed.len() - k,
    {
        let (id, names) = &removed[k];
        assert(rm[k as int] == (*id, names.deep_view()));
        let copy = names.clone();
        assert(copy.deep_view() =~= names.deep_view());
        let ghost before = removals.deep_view();
        removals.push((*id, copy));
        assert(removals.deep_view() =~= before.push(rm[k as int]));
        assert(rm.take(k + 1) =~= rm.take(k as int).push(rm[k as int]));
        k += 1;
    }
    assert(rm.take(rm.len() as int) =~= rm);
    (updates, removals)
}

/// Decode a single property value, e.g. of `GetProperty`.
pub fn owned_to_prop(value: &WireValue) -> (r: PropValue)
    ensures
        r@ == prop_of(value@),
{
    to_prop_value(value)
}

/// The `data` argument of a `com.canonical.dbusmenu` `Event` call for plain
/// clicks, matching what the reference implementations send.
pub fn empty_event_data() -> (r: WireValue)
    ensures
        r@ == SpecWire::U8(0),
{
    WireValue::U8(0)
}

/// The wire form of a byte array: `ay`.
pub open spec fn byte_array(bytes: Seq<u8>) -> SpecWire {
    SpecWire::Array { element_signature: "y"@, elements: bytes.map_values(|b: u8| SpecWire::U8(b)) }
}

/// The wire form of one pixmap: `(iiay)`, width first, then height, then
/// the pixel bytes.
pub open spec fn pixmap_structure(width: i32, height: i32, bytes: Seq<u8>) -> SpecWire {
    SpecWire::Structure {
        signature: "(iiay)"@,
        fields: seq![SpecWire::I32(width), SpecWire::I32(height), byte_array(bytes)],
    }
}

proof fn lemma_bytes_read_back(bytes: Seq<u8>)
    ensures
        bytes_in(props_of(bytes.map_values(|b: u8| SpecWire::U8(b)))) == bytes,
    decreases bytes.len(),
{
    let wires = bytes.map_values(|b: u8| SpecWire::U8(b));
    let decoded = props_of(wires);
    if bytes.len() > 0 {
        let init = bytes.drop_last();
        lemma_bytes_read_back(init);
        assert(decoded.drop_last() =~= props_of(init.map_values(|b: u8| SpecWire::U8(b))));
        assert(decoded.last() == SpecPropValue::UInt(bytes.last() as u64));
        assert(init.push(bytes.last()) =~= bytes);
    } else {
        assert(decoded =~= Seq::<SpecPropValue>::empty());
        assert(bytes =~= Seq::<u8>::empty());
    }
}

/// A byte array decodes to exactly its bytes.
pub proof fn lemma_byte_array_decodes(bytes: Seq<u8>)
    ensures
        prop_of(byte_array(bytes)) == SpecPropValue::Bytes(bytes),
{
    lemma_bytes_read_back(bytes);
}

/// A pixmap sent as `(iiay)` decodes to one pixmap whose width is the first
/// field, whose height is the second and whose data are the bytes of the
/// third; sent inside an `a(iiay)` array, alone, it decodes to that same
/// single pixmap.
pub proof fn lemma_pixmap_decodes(width: i32, height: i32, bytes: Seq<u8>)
    ensures
        prop_of(pixmap_structure(width, height, bytes)) == SpecPropValue::Pixmaps(
            seq![SpecPixmap { width, height, data: bytes }],
        ),
        prop_of(
            SpecWire::Array {
                element_signature: "(iiay)"@,
                elements: seq![pixmap_structure(width, height, bytes)],
            },
        ) == SpecPropValue::Pixmaps(seq![SpecPixmap { width, height, data: bytes }]),
{
    let st = pixmap_structure(width, height, bytes);
    let fields = seq![SpecWire::I32(width), SpecWire::I32(height), byte_array(bytes)];
    lemma_byte_array_decodes(bytes);
    let decoded = props_of(fields);
    assert(decoded[2] == prop_of(byte_array(bytes)));
    let px = SpecPropValue::Pixmaps(seq![SpecPixmap { width, height, data: bytes }]);
    assert(prop_of(st) == px);
    let elems = seq![st];
    let d = props_of(elems);
    assert(d.len() == 1);
    assert(d[0] == px);
    assert(d.drop_last() =~= Seq::<SpecPropValue>::empty());
    assert(pixmaps_in(d.drop_last()) =~= Seq::<SpecPixmap>::empty());
    assert(pixmaps_in(d) =~= seq![SpecPixmap { width, height, data: bytes }]);
    reveal_strlit("(iiay)");
    reveal_strlit("y");
    reveal_strlit("s");
    reveal_strlit("o");
    reveal_strlit("as");
    assert("(iiay)"@ != "y"@ && "(iiay)"@ != "s"@ && "(iiay)"@ != "o"@ && "(iiay)"@ != "as"@) by {
        assert("(iiay)"@.len() == 6);
    }
}

} // verus!
