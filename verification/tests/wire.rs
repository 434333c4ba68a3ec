use taskbar::menu::{NodeKind, ToggleState};
use taskbar::props::PropValue;
use taskbar::wire::{
    dict_to_prop_map, empty_event_data, layout_to_tree, node_from_value, to_prop_map,
    to_prop_value, updates_to_patch, MenuLayout, WireValue,
};

fn s(text: &str) -> WireValue {
    WireValue::Str(text.to_owned())
}

fn array(signature: &str, elements: Vec<WireValue>) -> WireValue {
    WireValue::Array {
        element_signature: signature.to_owned(),
        elements,
    }
}

fn structure(signature: &str, fields: Vec<WireValue>) -> WireValue {
    WireValue::Structure {
        signature: signature.to_owned(),
        fields,
    }
}

/// A wire accurate `a(iiay)` array, i.e. one `IconPixmap` property.
fn pixmap_list(sizes: &[(i32, i32)]) -> WireValue {
    array(
        "(iiay)",
        sizes
            .iter()
            .map(|&(width, height)| {
                structure(
                    "(iiay)",
                    vec![
                        WireValue::I32(width),
                        WireValue::I32(height),
                        array("y", (0..width * height * 4).map(|_| WireValue::U8(0)).collect()),
                    ],
                )
            })
            .collect(),
    )
}

/// A wire accurate `a{sv}` dictionary.
fn dict(entries: Vec<(&str, WireValue)>) -> WireValue {
    WireValue::Dict {
        entries: entries
            .into_iter()
            .map(|(name, value)| (s(name), WireValue::Value(Box::new(value))))
            .collect(),
        rendered: "{...}".to_owned(),
    }
}

/// A wire accurate `(ia{sv}av)` node wrapped in the variant a `children`
/// array carries.
fn node_with(id: i32, entries: Vec<(&str, WireValue)>, children: Vec<WireValue>) -> WireValue {
    WireValue::Value(Box::new(structure(
        "(ia{sv}av)",
        vec![WireValue::I32(id), dict(entries), array("v", children)],
    )))
}

fn node(id: i32, entries: Vec<(&str, WireValue)>) -> WireValue {
    node_with(id, entries, Vec::new())
}

#[test]
fn scalars_decode_to_typed_values() {
    assert_eq!(to_prop_value(&WireValue::Bool(true)), PropValue::Bool(true));
    assert_eq!(to_prop_value(&s("hi")), PropValue::Str("hi".to_owned()));
    assert_eq!(to_prop_value(&WireValue::U32(7)), PropValue::UInt(7));
    assert_eq!(to_prop_value(&WireValue::I32(-2)), PropValue::Int(-2));
}

#[test]
fn nested_variants_unwrap() {
    assert_eq!(
        to_prop_value(&WireValue::Value(Box::new(s("deep")))),
        PropValue::Str("deep".to_owned())
    );
}

#[test]
fn byte_arrays_decode() {
    let value = array("y", vec![WireValue::U8(1), WireValue::U8(2), WireValue::U8(3)]);
    assert_eq!(to_prop_value(&value), PropValue::Bytes(vec![1, 2, 3]));
}

#[test]
fn string_arrays_decode() {
    let value = array("s", vec![s("Control"), s("Q")]);
    assert_eq!(
        to_prop_value(&value),
        PropValue::Strings(vec!["Control".to_owned(), "Q".to_owned()])
    );
}

#[test]
fn shortcut_arrays_decode_to_key_chords() {
    let value = array(
        "as",
        vec![array("s", vec![s("Control"), s("Q")]), array("s", vec![s("Alt"), s("X")])],
    );
    assert_eq!(
        to_prop_value(&value),
        PropValue::StringLists(vec![
            vec!["Control".to_owned(), "Q".to_owned()],
            vec!["Alt".to_owned(), "X".to_owned()],
        ])
    );
}

#[test]
fn pixmap_arrays_decode_to_pixmaps() {
    match to_prop_value(&pixmap_list(&[(2, 2), (4, 4)])) {
        PropValue::Pixmaps(pixmaps) => {
            assert_eq!(pixmaps.len(), 2);
            assert_eq!((pixmaps[0].width, pixmaps[0].height), (2, 2));
            assert!(pixmaps[1].is_valid());
        }
        other => panic!("expected pixmaps, got {other:?}"),
    }
}

#[test]
fn tooltip_structures_decode() {
    let tooltip = structure(
        "(sa(iiay)ss)",
        vec![s("icon"), pixmap_list(&[(2, 2)]), s("Title"), s("Description")],
    );
    match to_prop_value(&tooltip) {
        PropValue::ToolTip(tooltip) => {
            assert_eq!(tooltip.title, "Title");
            assert_eq!(tooltip.description, "Description");
            assert_eq!(tooltip.icon_pixmaps.len(), 1);
        }
        other => panic!("expected a tooltip, got {other:?}"),
    }
}

#[test]
fn unknown_shapes_are_kept_as_unsupported() {
    let value = array("d", vec![WireValue::F64(1.5f64.to_bits())]);
    assert!(matches!(to_prop_value(&value), PropValue::Unsupported(_)));
}

#[test]
fn property_maps_decode_by_name() {
    let properties = vec![
        ("Id".to_owned(), s("demo")),
        ("ItemIsMenu".to_owned(), WireValue::Bool(true)),
    ];
    let map = to_prop_map(&properties);
    let get = |name: &str| map.iter().find(|(key, _)| key == name).map(|(_, value)| value.clone());
    assert_eq!(get("Id"), Some(PropValue::Str("demo".to_owned())));
    assert_eq!(get("ItemIsMenu"), Some(PropValue::Bool(true)));
}

#[test]
fn layouts_decode_at_every_depth() {
    let leaf = node(3, vec![("type", s("separator"))]);
    let child = node_with(
        2,
        vec![("label", s("_Sub")), ("enabled", WireValue::Bool(false))],
        vec![leaf],
    );
    let layout: MenuLayout = (0, vec![("label".to_owned(), s("_Quit"))], vec![child]);

    let tree = layout_to_tree(9, &layout);
    assert_eq!(tree.revision, 9);

    assert_eq!(tree.root.children.len(), 1);

    let sub = tree.find(2).expect("submenu");
    assert_eq!(sub.label, "Sub");
    assert!(!sub.enabled);
    assert_eq!(sub.children.len(), 1);

    let separator = tree.find(3).expect("separator");
    assert_eq!(separator.kind, NodeKind::Separator);
    assert_eq!(separator.toggle_state, ToggleState::Unset);
}

#[test]
fn labels_are_stripped_of_mnemonics() {
    let layout: MenuLayout = (
        0,
        vec![("label".to_owned(), s("_Quit"))],
        vec![node(1, vec![("label", s("_Save _As"))])],
    );

    let tree = layout_to_tree(1, &layout);
    assert_eq!(tree.find(1).expect("entry").label, "Save As");
}

#[test]
fn small_integers_widen_and_bytes_keep_only_bytes() {
    assert_eq!(to_prop_value(&WireValue::U8(200)), PropValue::UInt(200));
    assert_eq!(to_prop_value(&WireValue::I16(-3)), PropValue::Int(-3));
    assert_eq!(to_prop_value(&WireValue::U16(3)), PropValue::UInt(3));
    assert_eq!(to_prop_value(&WireValue::I64(-9)), PropValue::Int(-9));
    assert_eq!(to_prop_value(&WireValue::U64(9)), PropValue::UInt(9));
    let value = array("y", vec![WireValue::U8(1), WireValue::U64(300), s("x")]);
    assert_eq!(to_prop_value(&value), PropValue::Bytes(vec![1]));
}

#[test]
fn object_paths_read_as_text_and_signatures_as_unsupported() {
    assert_eq!(
        to_prop_value(&WireValue::ObjectPath("/a/b".to_owned())),
        PropValue::Str("/a/b".to_owned())
    );
    assert_eq!(
        to_prop_value(&WireValue::Signature("a{sv}".to_owned())),
        PropValue::Unsupported("a{sv}".to_owned())
    );
    assert_eq!(
        to_prop_value(&dict(vec![])),
        PropValue::Unsupported("{...}".to_owned())
    );
}

#[test]
fn odd_structures_are_kept_by_their_signature() {
    let value = structure("(ii)", vec![WireValue::I32(1), WireValue::I32(2)]);
    assert_eq!(to_prop_value(&value), PropValue::Unsupported("(ii)".to_owned()));
}

#[test]
fn dictionaries_keep_text_keys_only() {
    let entries = vec![
        (s("label"), s("x")),
        (WireValue::I32(1), s("ignored")),
    ];
    let map = dict_to_prop_map(&entries);
    assert_eq!(map, vec![("label".to_owned(), PropValue::Str("x".to_owned()))]);
}

#[test]
fn values_that_are_not_nodes_are_skipped() {
    assert!(node_from_value(&s("nope")).is_none());
    assert!(node_from_value(&structure("(s)", vec![s("x")])).is_none());
    let bare = structure("(i)", vec![WireValue::I32(5)]);
    assert_eq!(node_from_value(&bare).map(|n| n.id), Some(5));
}

#[test]
fn patches_decode_their_properties() {
    let (updates, removals) = updates_to_patch(
        &[(4, vec![("label".to_owned(), s("_Go"))])],
        &[(2, vec!["type".to_owned()])],
    );
    assert_eq!(updates, vec![(4, vec![("label".to_owned(), PropValue::Str("_Go".to_owned()))])]);
    assert_eq!(removals, vec![(2, vec!["type".to_owned()])]);
    assert_eq!(empty_event_data(), WireValue::U8(0));
}
