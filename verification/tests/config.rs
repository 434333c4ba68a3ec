use taskbar::config::{Config, PanelBox, SortMode};
use taskbar::view::ConfigView;

#[test]
fn default_config_is_sane() {
    let config = Config::default().normalized();
    assert_eq!(config.icon_size, 16);
    assert_eq!(config.sort, SortMode::Registered);
    assert!(!config.show_when_empty);
}

#[test]
fn normalisation_dedupes_and_clamps() {
    let config = Config {
        icon_size: 4,
        order: vec!["a".to_owned(), "a".to_owned(), "  ".to_owned(), "b".to_owned()],
        hidden: vec!["a".to_owned(), "a".to_owned()],
        panel_position: -5,
        ..Config::default()
    }
    .normalized();

    assert_eq!(config.icon_size, 8);
    assert_eq!(config.order, vec!["a", "b"]);
    assert_eq!(config.hidden, vec!["a"]);
    assert_eq!(config.panel_position, 0);
}

#[test]
fn with_hidden_toggles_key() {
    let config = Config::default().with_hidden("steam", true);
    assert!(config.is_hidden("steam"));
    let config = config.with_hidden("steam", false);
    assert!(!config.is_hidden("steam"));
    assert!(config.hidden.is_empty());
}

#[test]
fn config_view_round_trips() {
    let config = Config::default()
        .with_hidden("discord", true)
        .with_order(vec!["b".to_owned(), "a".to_owned()]);
    let restored = Config::from_view(config.to_view());
    assert_eq!(restored, config);
}

#[test]
fn names_round_trip_and_unknown_names_fall_back() {
    for mode in [SortMode::Registered, SortMode::Manual, SortMode::Title] {
        assert_eq!(SortMode::parse(mode.as_str()), mode);
    }
    for area in [PanelBox::Left, PanelBox::Center, PanelBox::Right] {
        assert_eq!(PanelBox::parse(area.as_str()), area);
    }
    assert_eq!(SortMode::parse("sideways"), SortMode::Registered);
    assert_eq!(PanelBox::parse("top"), PanelBox::Right);
    assert_eq!(SortMode::Title.as_str(), "title");
    assert_eq!(PanelBox::Center.as_str(), "center");
}

#[test]
fn normalisation_is_idempotent_and_trims_keys() {
    let config = Config {
        icon_size: 500,
        order: vec![" b ".to_owned(), "b".to_owned(), "a".to_owned()],
        panel_position: 99,
        ..Config::default()
    };
    let once = config.normalized();
    assert_eq!(once.icon_size, 128);
    assert_eq!(once.panel_position, 64);
    assert_eq!(once.order, vec!["b", "a"]);
    let twice = once.clone().normalized();
    assert_eq!(twice, once);
}

#[test]
fn hiding_one_key_leaves_the_others_alone() {
    let config = Config::default().with_hidden("a", true).with_hidden("b", true);
    let config = config.with_hidden("a", false);
    assert!(!config.is_hidden("a"));
    assert!(config.is_hidden("b"));
}

#[test]
fn with_order_switches_to_manual_sorting() {
    let config = Config::default().with_order(vec!["x".to_owned(), "x".to_owned()]);
    assert_eq!(config.sort, SortMode::Manual);
    assert_eq!(config.order, vec!["x"]);
}

#[test]
fn views_are_normalised_on_the_way_in() {
    let view = ConfigView {
        icon_size: -3,
        sort: "manual".to_owned(),
        order: vec!["k".to_owned()],
        hidden: vec![],
        show_when_empty: true,
        panel_box: "left".to_owned(),
        panel_position: 3,
    };
    let config = Config::from_view(view);
    assert_eq!(config.icon_size, 128, "a negative size wraps to a huge one and is clamped");
    assert_eq!(config.sort, SortMode::Manual);
    assert_eq!(config.panel_box, PanelBox::Left);
    assert!(config.show_when_empty);
}
