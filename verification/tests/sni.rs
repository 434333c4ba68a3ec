use taskbar::props::PropValue;
use taskbar::sni::{Category, ItemProps, ServiceRef, Status};

fn text(value: &str) -> PropValue {
    PropValue::Str(value.to_owned())
}

fn props_with(name: &str, value: PropValue) -> ItemProps {
    ItemProps::default().with_property(name, value)
}

#[test]
fn registration_resolves_all_three_spellings() {
    let explicit = ServiceRef::resolve("org.example.Tray/StatusNotifierItem", ":1.7");
    assert_eq!(explicit.bus_name, "org.example.Tray");
    assert_eq!(explicit.object_path, "/StatusNotifierItem");

    let path_only = ServiceRef::resolve("/org/example/Item", ":1.7");
    assert_eq!(path_only.bus_name, ":1.7");
    assert_eq!(path_only.object_path, "/org/example/Item");

    let name_only = ServiceRef::resolve("org.example.Tray", ":1.7");
    assert_eq!(name_only.bus_name, "org.example.Tray");
    assert_eq!(name_only.object_path, "/StatusNotifierItem");
}

#[test]
fn registration_ids_round_trip() {
    let service = ServiceRef::resolve("org.example.Tray/StatusNotifierItem", ":1.7");
    assert_eq!(service.registration_id(), "org.example.Tray/StatusNotifierItem");

    let service = ServiceRef::resolve("/StatusNotifierItem", ":1.7");
    assert_eq!(service.registration_id(), ":1.7/StatusNotifierItem");
    assert_eq!(ServiceRef::resolve(&service.registration_id(), ":1.7"), service);
}

#[test]
fn status_parsing_is_lenient() {
    assert_eq!(Status::parse("NeedsAttention"), Status::NeedsAttention);
    assert_eq!(Status::parse("Passive"), Status::Passive);
    assert_eq!(Status::parse("SomethingElse"), Status::Active);
}

#[test]
fn attention_icon_takes_over_when_needed() {
    let props = ItemProps::default()
        .with_property("IconName", text("app-icon"))
        .with_property("AttentionIconName", text("app-alert"))
        .with_property("Status", text("Active"));

    assert_eq!(props.effective_icon().name, "app-icon");

    let props = props.with_property("Status", text("NeedsAttention"));
    assert_eq!(props.effective_icon().name, "app-alert");
}

#[test]
fn icon_theme_path_reaches_every_icon() {
    let props = props_with("IconThemePath", text("/opt/app/icons"));
    assert_eq!(props.icon.theme_path, "/opt/app/icons");
    assert_eq!(props.overlay.theme_path, "/opt/app/icons");
    assert_eq!(props.attention.theme_path, "/opt/app/icons");
}

#[test]
fn passive_items_are_hidden() {
    assert!(ItemProps::default().is_visible());
    assert!(!props_with("Status", text("Passive")).is_visible());
}

#[test]
fn accessible_name_falls_back_through_the_spec() {
    let props = props_with("Id", text("demo"));
    assert_eq!(props.accessible_name(), "demo");

    let props = props
        .with_property("Title", text("Demo App"))
        .with_property("IconAccessibleDesc", text("Demo is running"));
    assert_eq!(props.accessible_name(), "Demo is running");
}

#[test]
fn no_dbusmenu_marker_disables_the_menu() {
    assert!(!props_with("Menu", text("/NO_DBUSMENU")).has_menu());
    assert!(props_with("Menu", text("/MenuBar")).has_menu());
}

#[test]
fn unknown_properties_are_ignored() {
    let props = props_with("Whatever", PropValue::Unsupported("v".to_owned()));
    assert_eq!(props, ItemProps::default());
}

#[test]
fn an_empty_service_names_the_caller() {
    let service = ServiceRef::resolve("   ", ":1.9");
    assert_eq!(service.bus_name, ":1.9");
    assert_eq!(service.object_path, "/StatusNotifierItem");
}

#[test]
fn object_paths_are_made_absolute() {
    let service = ServiceRef::resolve("org.example.Tray//deep/Item", ":1.7");
    assert_eq!(service.object_path, "/deep/Item");
    let service = ServiceRef::resolve("org.example.Tray/", ":1.7");
    assert_eq!(service.object_path, "/StatusNotifierItem");
}

#[test]
fn categories_round_trip_and_default() {
    for category in [
        Category::ApplicationStatus,
        Category::Communications,
        Category::SystemServices,
        Category::Hardware,
    ] {
        assert_eq!(Category::parse(category.as_str()), category);
    }
    assert_eq!(Category::parse("Toaster"), Category::ApplicationStatus);
    assert_eq!(props_with("Category", text("Hardware")).category, Category::Hardware);
}

#[test]
fn window_ids_and_flags_decode() {
    let props = props_with("WindowId", PropValue::UInt(42)).with_property("ItemIsMenu", true.into());
    assert_eq!(props.window_id, 42);
    assert!(props.item_is_menu);
    assert_eq!(props_with("WindowId", PropValue::UInt(u64::MAX)).window_id, 0);
}

#[test]
fn attention_without_an_icon_keeps_the_normal_one() {
    let props = props_with("IconName", text("normal")).with_property("Status", text("NeedsAttention"));
    assert_eq!(props.effective_icon().name, "normal");
}

#[test]
fn accessible_name_prefers_attention_text_while_attention_is_needed() {
    let props = props_with("AttentionAccessibleDesc", text("Alert!"))
        .with_property("IconAccessibleDesc", text("Normal"));
    assert_eq!(props.accessible_name(), "Normal");
    let props = props.with_property("Status", text("NeedsAttention"));
    assert_eq!(props.accessible_name(), "Alert!");
    let labelled = props_with("XAyatanaLabel", text("42%")).with_property("Title", text("Battery"));
    assert_eq!(labelled.accessible_name(), "42%");
}

#[test]
fn properties_fold_from_a_map() {
    let map = vec![("Id".to_owned(), text("x")), ("Menu".to_owned(), text("/M"))];
    let props = ItemProps::from_map(map);
    assert_eq!(props.id, "x");
    assert!(props.has_menu());
}
