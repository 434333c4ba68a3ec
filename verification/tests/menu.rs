use taskbar::menu::{
    mnemonic_of, strip_mnemonic, MenuNode, MenuTree, NodeKind, ToggleState, ToggleType, ROOT_ID,
};
use taskbar::props::{PropMap, PropValue};

fn text(value: &str) -> PropValue {
    PropValue::Str(value.to_owned())
}

fn node(id: i32) -> MenuNode {
    MenuNode::new(id)
}

fn tree() -> MenuTree {
    MenuTree {
        revision: 3,
        root: MenuNode {
            id: ROOT_ID,
            children: vec![
                node(1).with_property("label", text("_Quit")),
                node(2).with_property("type", text("separator")),
                MenuNode {
                    id: 3,
                    label: "Sub".to_owned(),
                    children: vec![node(4)],
                    ..MenuNode::default()
                },
            ],
            ..MenuNode::default()
        },
    }
}

#[test]
fn mnemonics_follow_the_protocol() {
    assert_eq!(strip_mnemonic("_Quit"), "Quit");
    assert_eq!(mnemonic_of("_Quit"), Some('Q'));
    assert_eq!(strip_mnemonic("A__B"), "A_B");
    assert_eq!(mnemonic_of("A__B"), None);
    assert_eq!(strip_mnemonic("Plain"), "Plain");
    assert_eq!(strip_mnemonic("Trailing_"), "Trailing");
}

#[test]
fn nodes_default_like_the_spec_says() {
    let node = node(7)
        .with_property("label", text("_Save"))
        .with_property("enabled", false.into())
        .with_property("toggle-state", 1i64.into())
        .with_property("toggle-type", text("checkmark"));

    assert_eq!(node.label, "Save");
    assert!(!node.enabled);
    assert_eq!(node.toggle_state, ToggleState::On);
    assert_eq!(node.toggle_type, ToggleType::Checkmark);
    // Unset properties keep their documented defaults.
    assert!(node.visible);
    assert_eq!(node.kind, NodeKind::Standard);
}

#[test]
fn removals_reset_to_defaults() {
    let node = node(7)
        .with_property("label", text("_Save"))
        .with_property("enabled", false.into())
        .without_property("enabled");

    assert_eq!(node.label, "Save", "untouched properties survive");
    assert!(node.enabled, "removed property is back to its default");
}

#[test]
fn updates_patch_nested_nodes() {
    let patched = tree().updated(
        &[(4, vec![("label".to_owned(), text("Inner"))])],
        &[(2, vec!["type".to_owned()])],
    );

    assert_eq!(patched.find(4).unwrap().label, "Inner");
    assert_eq!(patched.find(2).unwrap().kind, NodeKind::Standard);
    assert_eq!(patched.find(1).unwrap().label, "Quit");
    assert_eq!(patched.find(3).unwrap().children.len(), 1);
}

#[test]
fn find_reaches_into_submenus() {
    let tree = tree();
    assert_eq!(tree.find(4).map(|n| n.id), Some(4));
    assert_eq!(tree.find(99), None);
    assert_eq!(tree.root.len(), 5);
}

#[test]
fn mnemonic_is_the_first_unescaped_marker() {
    assert_eq!(mnemonic_of("a__b_cd"), Some('c'));
    assert_eq!(mnemonic_of("x_"), None);
    assert_eq!(mnemonic_of(""), None);
    assert_eq!(strip_mnemonic("a__b_cd"), "a_bcd");
}

#[test]
fn enum_names_round_trip() {
    for kind in [NodeKind::Standard, NodeKind::Separator] {
        assert_eq!(NodeKind::parse(kind.as_str()), kind);
    }
    for state in [ToggleState::Unset, ToggleState::Off, ToggleState::On] {
        assert_eq!(ToggleState::parse(state.as_i32() as i64), state);
    }
    for toggle in [ToggleType::Plain, ToggleType::Checkmark, ToggleType::Radio] {
        assert_eq!(ToggleType::parse(toggle.as_str()), toggle);
    }
    assert_eq!(ToggleType::Plain.as_str(), "none");
    assert_eq!(ToggleState::parse(7), ToggleState::Unset);
    assert_eq!(NodeKind::parse("weird"), NodeKind::Standard);
}

#[test]
fn removing_a_property_undoes_any_assignment_to_it() {
    let plain = node(5);
    let assigned = node(5).with_property("icon-name", text("edit")).without_property("icon-name");
    assert_eq!(assigned, plain);
}

#[test]
fn unknown_and_mistyped_properties_change_nothing() {
    assert_eq!(node(1).with_property("colour", text("red")), node(1));
    assert_eq!(node(1).with_property("shortcut", text("Ctrl+Q")), node(1));
    let chords = PropValue::StringLists(vec![vec!["Control".to_owned(), "Q".to_owned()]]);
    assert_eq!(node(1).with_property("shortcut", chords).shortcut.len(), 1);
}

#[test]
fn patches_keep_the_shape_of_the_tree() {
    let before = tree();
    let after = before.updated(
        &[(3, vec![("label".to_owned(), text("_Other")), ("visible".to_owned(), false.into())])],
        &[(1, vec!["label".to_owned(), "enabled".to_owned()])],
    );
    assert_eq!(after.root.len(), before.root.len());
    assert_eq!(after.find(3).unwrap().label, "Other");
    assert!(!after.find(3).unwrap().visible);
    assert_eq!(after.find(1).unwrap().label, "");
    assert_eq!(after.revision, before.revision);
}

#[test]
fn a_node_without_children_is_empty() {
    assert!(node(1).is_empty());
    assert!(!tree().root.is_empty());
    assert!(tree().find(2).unwrap().is_separator());
}

#[test]
fn property_maps_fold_in_order() {
    let map: PropMap = vec![
        ("label".to_owned(), text("First")),
        ("label".to_owned(), text("Second")),
    ];
    assert_eq!(node(1).with_properties(&map).label, "Second");
}
