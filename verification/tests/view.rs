use taskbar::icon::Pixmap;
use taskbar::menu::{MenuNode, MenuTree, NodeKind, ROOT_ID};
use taskbar::model::{Item, Key};
use taskbar::props::PropValue;
use taskbar::sni::{Icon, ItemProps, ServiceRef, Status};
use taskbar::view::{flatten_menu, inflate_menu, IconView, ItemView, MenuNodeView};

fn text(value: &str) -> PropValue {
    PropValue::Str(value.to_owned())
}

fn pixmap(size: i32, pixel: [u8; 4]) -> Pixmap {
    let mut p = Pixmap::new(size, size, vec![0; (size * size) as usize * 4]);
    for y in 0..size {
        for x in 0..size {
            p.set_pixel(x, y, pixel);
        }
    }
    p
}

fn item() -> Item {
    Item {
        key: Key::new("demo"),
        service: ServiceRef {
            bus_name: ":1.1".to_owned(),
            object_path: "/StatusNotifierItem".to_owned(),
        },
        props: ItemProps::default()
            .with_property("Id", text("demo"))
            .with_property("Title", text("Demo"))
            .with_property(
                "IconPixmap",
                PropValue::Pixmaps(vec![pixmap(8, [255, 1, 2, 3]), pixmap(32, [255, 4, 5, 6])]),
            )
            .with_property("Menu", text("/MenuBar")),
        menu: None,
    }
}

#[test]
fn item_view_resolves_the_icon_for_the_requested_size() {
    let view = ItemView::of(&item(), 22);
    assert_eq!(view.key, "demo");
    assert_eq!(view.icon.width, 32, "the 32px pixmap fills 22px best");
    assert_eq!(view.icon.row_stride, 32 * 4);
    assert!(view.has_menu);
    assert!(!view.icon.is_empty());
}

#[test]
fn item_view_composites_the_overlay_icon() {
    let mut item = item();
    item.props = item
        .props
        .clone()
        .with_property("IconPixmap", PropValue::Pixmaps(vec![pixmap(16, [255, 0, 0, 0])]))
        .with_property(
            "OverlayIconPixmap",
            PropValue::Pixmaps(vec![pixmap(16, [255, 255, 255, 255])]),
        );

    let view = ItemView::of(&item, 16);
    let merged = view.icon.to_pixmap().unwrap();
    assert_eq!(merged.pixel(8, 8), Some([255, 255, 255, 255]));
}

#[test]
fn item_view_falls_back_to_the_theme_name() {
    let mut item = item();
    item.props = item
        .props
        .clone()
        .with_property("IconPixmap", PropValue::Pixmaps(vec![]))
        .with_property("IconName", text("demo-icon"));

    let view = ItemView::of(&item, 22);
    assert!(view.icon.data.is_empty());
    assert_eq!(view.icon.name, "demo-icon");
}

#[test]
fn attention_status_switches_icon_and_name() {
    let mut item = item();
    item.props = item
        .props
        .clone()
        .with_property("AttentionIconName", text("alert"))
        .with_property("Status", text(Status::NeedsAttention.as_str()));

    assert_eq!(item.props.effective_icon().name, "alert");
}

#[test]
fn menus_survive_the_round_trip() {
    let tree = MenuTree {
        revision: 7,
        root: MenuNode {
            id: ROOT_ID,
            children: vec![
                MenuNode::new(1).with_property("label", text("_Quit")),
                MenuNode {
                    id: 2,
                    children: vec![MenuNode::new(3).with_property("type", text("separator"))],
                    ..MenuNode::default()
                },
            ],
            ..MenuNode::default()
        },
    };

    let view = flatten_menu("demo", &tree);
    assert_eq!(
        view.nodes.iter().map(|n| (n.id, n.parent)).collect::<Vec<_>>(),
        [(1, 0), (2, 0), (3, 2)]
    );
    assert_eq!(view.nodes[0].label, "Quit");
    assert!(view.nodes[1].has_children);

    let restored = inflate_menu(&view);
    assert_eq!(restored.find(3).unwrap().kind, NodeKind::Separator);
    assert_eq!(restored.find(1).unwrap().label, "Quit");
    assert_eq!(restored.revision, 7);
}

#[test]
fn a_restored_menu_equals_the_original() {
    let tree = MenuTree {
        revision: 2,
        root: MenuNode {
            id: ROOT_ID,
            children: vec![
                MenuNode {
                    id: 5,
                    children: vec![MenuNode::new(6), MenuNode::new(7).with_property("enabled", false.into())],
                    ..MenuNode::default()
                },
                MenuNode::new(8).with_property("toggle-type", text("radio")),
            ],
            ..MenuNode::default()
        },
    };
    assert_eq!(inflate_menu(&flatten_menu("k", &tree)), tree);
}

#[test]
fn orphans_are_attached_to_the_root() {
    let mut view = flatten_menu("k", &MenuTree::default());
    view.nodes.push(MenuNodeView::of(&MenuNode::new(4), 99));
    let restored = inflate_menu(&view);
    assert_eq!(restored.root.children.len(), 1);
    assert_eq!(restored.root.children[0].id, 4);
}

#[test]
fn tooltips_prefer_the_description() {
    let tooltip = |title: &str, description: &str| {
        let mut props = ItemProps::default();
        props.tooltip.title = title.to_owned();
        props.tooltip.description = description.to_owned();
        Item { props, ..item() }
    };
    assert_eq!(ItemView::of(&tooltip("T", "D"), 16).tooltip, "D");
    assert_eq!(ItemView::of(&tooltip("T", ""), 16).tooltip, "T");
}

#[test]
fn icon_views_of_names_and_pixels() {
    let named = IconView::named("mail", "/icons");
    assert!(!named.is_empty());
    assert_eq!(named.to_pixmap(), None);
    assert!(IconView::default().is_empty());

    let p = pixmap(2, [255, 1, 2, 3]);
    let view = IconView::from_pixmap(&p);
    assert_eq!(view.row_stride, 8);
    assert_eq!(view.to_pixmap(), Some(p));
}

#[test]
fn resolving_without_pixels_uses_the_theme_name() {
    let icon = Icon {
        name: "folder".to_owned(),
        theme_path: "/t".to_owned(),
        pixmaps: vec![Pixmap::new(4, 4, vec![])],
    };
    let view = IconView::resolve(&icon, None, 16);
    assert_eq!(view, IconView::named("folder", "/t"));
}

#[test]
fn node_views_carry_every_property() {
    let node = MenuNode::new(9)
        .with_property("label", text("_Open"))
        .with_property("toggle-state", 0i64.into())
        .with_property("toggle-type", text("checkmark"))
        .with_property("icon-name", text("document-open"));
    let view = MenuNodeView::of(&node, 3);
    assert_eq!(view.parent, 3);
    assert_eq!(view.kind, "standard");
    assert_eq!(view.label, "Open");
    assert_eq!(view.toggle_state, 0);
    assert_eq!(view.toggle_type, "checkmark");
    assert_eq!(view.icon_name, "document-open");
    assert!(!view.has_children);
}
