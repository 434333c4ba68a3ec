use taskbar::config::{Config, SortMode};
use taskbar::model::{Item, Key};
use taskbar::props::PropValue;
use taskbar::rules::{is_visible, keys_by_name, moved_order, ordered_keys};
use taskbar::sni::{ItemProps, ServiceRef, Status};

fn item(key: &str, title: &str) -> Item {
    Item {
        key: Key::new(key),
        service: ServiceRef {
            bus_name: format!(":{key}"),
            object_path: "/StatusNotifierItem".to_owned(),
        },
        props: ItemProps::default().with_property("Title", PropValue::Str(title.to_owned())),
        menu: None,
    }
}

fn keys(items: &[Item], config: &Config) -> Vec<String> {
    ordered_keys(items, config)
        .into_iter()
        .map(|key| key.to_string())
        .collect()
}

fn items() -> Vec<Item> {
    vec![item("zeta", "Zeta"), item("alpha", "Alpha"), item("mid", "Mid")]
}

fn current(names: &[&str]) -> Vec<Key> {
    names.iter().map(|name| Key::new(name)).collect()
}

#[test]
fn registration_order_is_the_default() {
    assert_eq!(keys(&items(), &Config::default()), ["zeta", "alpha", "mid"]);
}

#[test]
fn title_order_sorts_by_visible_name() {
    let config = Config {
        sort: SortMode::Title,
        ..Config::default()
    };
    assert_eq!(keys(&items(), &config), ["alpha", "mid", "zeta"]);
}

#[test]
fn manual_order_places_known_items_first() {
    let config = Config::default().with_order(vec!["mid".to_owned(), "zeta".to_owned()]);
    assert_eq!(keys(&items(), &config), ["mid", "zeta", "alpha"]);
}

#[test]
fn moved_order_swaps_with_a_neighbour() {
    let current = current(&["a", "b", "c"]);
    assert_eq!(
        moved_order(&current, "a", 1),
        Some(vec!["b".to_owned(), "a".to_owned(), "c".to_owned()])
    );
    assert_eq!(
        moved_order(&current, "c", -1),
        Some(vec!["a".to_owned(), "c".to_owned(), "b".to_owned()])
    );
}

#[test]
fn moved_order_refuses_to_leave_the_cliff() {
    let current = current(&["a", "b"]);
    assert_eq!(moved_order(&current, "a", -1), None);
    assert_eq!(moved_order(&current, "b", 1), None);
    assert_eq!(moved_order(&current, "gone", 1), None);
}

#[test]
fn hidden_items_disappear() {
    let items = items();
    let config = Config::default().with_hidden("alpha", true);
    assert_eq!(keys(&items, &config), ["zeta", "alpha", "mid"]);
    assert!(!is_visible(&items[1], &config));
    assert!(is_visible(&items[0], &config));
}

#[test]
fn passive_items_disappear() {
    let mut items = items();
    items[0].props.status = Status::Passive;
    assert!(!is_visible(&items[0], &Config::default()));
}

#[test]
fn title_order_ignores_case() {
    let items = vec![item("b", "Beta"), item("a", "alpha")];
    let config = Config {
        sort: SortMode::Title,
        ..Config::default()
    };
    assert_eq!(keys(&items, &config), ["a", "b"], "lowercase alpha still comes first");
}

#[test]
fn equal_titles_are_ordered_by_key() {
    let items = vec![item("y", "Same"), item("x", "same")];
    let config = Config {
        sort: SortMode::Title,
        ..Config::default()
    };
    assert_eq!(keys(&items, &config), ["x", "y"]);
}

#[test]
fn unlisted_items_keep_registration_order_after_listed_ones() {
    let items = vec![item("d", "D"), item("c", "C"), item("b", "B"), item("a", "A")];
    let config = Config::default().with_order(vec!["b".to_owned()]);
    assert_eq!(keys(&items, &config), ["b", "d", "c", "a"]);
}

#[test]
fn moving_back_restores_the_order() {
    let start = current(&["a", "b", "c", "d"]);
    let moved = moved_order(&start, "a", 2).expect("moves");
    assert_eq!(moved, vec!["b", "c", "a", "d"]);
    let moved_keys: Vec<Key> = moved.iter().map(|k| Key::new(k)).collect();
    let back = moved_order(&moved_keys, "a", -2).expect("moves back");
    assert_eq!(back, vec!["a", "b", "c", "d"]);
}

#[test]
fn every_item_appears_once_in_any_order() {
    for sort in [SortMode::Registered, SortMode::Title, SortMode::Manual] {
        let config = Config {
            sort,
            order: vec!["mid".to_owned()],
            ..Config::default()
        };
        let mut listed = keys(&items(), &config);
        listed.sort();
        assert_eq!(listed, ["alpha", "mid", "zeta"]);
    }
}

#[test]
fn names_order_keys_with_ties_broken_by_key() {
    let named = vec![
        ("steam".to_owned(), Key::new("b")),
        ("discord".to_owned(), Key::new("c")),
        ("steam".to_owned(), Key::new("a")),
        ("Zulu".to_owned(), Key::new("d")),
    ];
    let order: Vec<String> = keys_by_name(&named).into_iter().map(|key| key.to_string()).collect();
    assert_eq!(order, vec!["d", "c", "a", "b"]);
}

