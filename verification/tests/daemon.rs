use taskbar::config::SortMode;
use taskbar::daemon::{
    after_probe, config_dir, config_path, describe, describe_name_reply, icon_size,
    key_for_service, keys_of_bus_name, menu_of, menu_path_of, moved_config,
    name_change_drops_items, registered_ids, service_of, status_view, watcher_owned, Hosts,
    NameReply, WatcherStatus,
};
use taskbar::demo::icon_frames;
use taskbar::menu::{MenuNode, MenuTree};
use taskbar::model::{update, Effect, Event, Key, State};
use taskbar::props::PropValue;
use taskbar::sni::{ItemProps, ServiceRef};

fn service(name: &str, path: &str) -> ServiceRef {
    ServiceRef {
        bus_name: name.to_owned(),
        object_path: path.to_owned(),
    }
}

fn state() -> State {
    let mut state = State::default();
    for (bus, id, menu) in [(":1.1", "steam", "/Menu"), (":1.2", "discord", ""), (":1.1", "tool", "")] {
        let props = ItemProps::default()
            .with_property("Id", PropValue::Str(id.to_owned()))
            .with_property("Menu", PropValue::Str(menu.to_owned()));
        let path = format!("/{id}");
        state = update(
            state,
            Event::Registered {
                service: service(bus, &path),
                props,
            },
        )
        .0;
    }
    state
}

#[test]
fn effects_are_described_in_one_line() {
    let effects = vec![
        Effect::ItemsChanged { revision: 12 },
        Effect::MenuChanged { key: Key::new("steam") },
        Effect::ConfigChanged { revision: 3 },
    ];
    assert_eq!(
        describe(&effects),
        "items changed (rev 12), menu changed (steam), config changed"
    );
    assert_eq!(describe(&[]), "");
}

#[test]
fn hosts_are_added_once() {
    let mut hosts = Hosts::new();
    assert!(hosts.is_empty());
    assert!(hosts.add("org.kde.StatusNotifierHost"));
    assert!(!hosts.add("org.kde.StatusNotifierHost"));
    assert!(!hosts.is_empty());
}

#[test]
fn the_config_file_follows_xdg() {
    assert_eq!(
        config_path(Some("/xdg"), Some("/home/me")),
        "/xdg/taskbar/config.toml"
    );
    assert_eq!(
        config_path(Some("relative"), Some("/home/me")),
        "/home/me/.config/taskbar/config.toml"
    );
    assert_eq!(config_path(None, Some("/home/me/")), "/home/me/.config/taskbar/config.toml");
    assert_eq!(config_path(None, None), ".config/taskbar/config.toml");
    assert_eq!(config_dir(Some("/xdg/"), None), "/xdg/taskbar");
}

#[test]
fn queries_find_items_by_key_and_service() {
    let state = state();
    assert_eq!(service_of(&state, "discord"), Some(service(":1.2", "/discord")));
    assert_eq!(service_of(&state, "nobody"), None);
    assert_eq!(
        key_for_service(&state, &service(":1.1", "/tool")).map(|k| k.to_string()),
        Some("tool".to_owned())
    );
    assert_eq!(key_for_service(&state, &service(":9.9", "/x")), None);
    assert_eq!(menu_path_of(&state, "steam"), Some("/Menu".to_owned()));
    assert_eq!(menu_path_of(&state, "discord"), None);
    let keys: Vec<String> = keys_of_bus_name(&state, ":1.1").iter().map(|k| k.to_string()).collect();
    assert_eq!(keys, vec!["steam", "tool"]);
    assert_eq!(
        registered_ids(&state),
        vec![":1.1/steam", ":1.2/discord", ":1.1/tool"]
    );
}

#[test]
fn menus_are_served_flattened() {
    let state = state();
    assert_eq!(menu_of(&state, "steam"), None);
    let menu = MenuTree {
        revision: 4,
        root: MenuNode {
            children: vec![MenuNode::new(1)],
            ..MenuNode::default()
        },
    };
    let state = update(
        state,
        Event::MenuUpdated {
            key: Key::new("steam"),
            menu: Some(menu),
        },
    )
    .0;
    let view = menu_of(&state, "steam").expect("a menu");
    assert_eq!(view.key, "steam");
    assert_eq!(view.revision, 4);
    assert_eq!(view.nodes.len(), 1);
}

#[test]
fn moving_an_item_changes_the_manual_order() {
    let state = state();
    let config = moved_config(&state, "steam", 1).expect("moves");
    assert_eq!(config.sort, SortMode::Manual);
    assert_eq!(config.order, vec!["discord", "steam", "tool"]);
    assert!(moved_config(&state, "steam", -1).is_none());
    assert!(moved_config(&state, "nobody", 1).is_none());
}

#[test]
fn status_reports_what_the_daemon_knows() {
    let watcher = WatcherStatus {
        owned: true,
        owner: ":1.42".to_owned(),
        host_registered: true,
    };
    let view = status_view("1.0", watcher, 3, 7, "/c.toml", "bad".to_owned());
    assert_eq!(view.watcher_name, "org.kde.StatusNotifierWatcher");
    assert_eq!(view.item_count, 3);
    assert_eq!(view.revision, 7);
    assert!(view.watcher_owned);
    assert_eq!(view.last_error, "bad");
    assert!(watcher_owned(":1.42", ":1.42"));
    assert!(!watcher_owned("", ""));
    assert!(!watcher_owned(":1.1", ":1.42"));
}

#[test]
fn small_decisions() {
    assert_eq!(icon_size(24, 16), 24);
    assert_eq!(icon_size(0, 16), 16);
    assert_eq!(icon_size(-4, 16), 16);
    assert_eq!(after_probe(0, false), (1, false));
    assert_eq!(after_probe(1, false), (2, true));
    assert_eq!(after_probe(1, true), (0, false));
    assert!(name_change_drops_items(":1.1", ""));
    assert!(name_change_drops_items(":1.1", ":1.2"));
    assert!(!name_change_drops_items(":1.1", ":1.1"));
    assert_eq!(describe_name_reply(NameReply::Exists), "already owned by someone else");
    assert_eq!(describe_name_reply(NameReply::PrimaryOwner), "primary owner");
}

#[test]
fn demo_icons_have_four_frames_in_two_sizes() {
    let frames = icon_frames();
    assert_eq!(frames.len(), 4);
    for frame in &frames {
        assert_eq!(frame.len(), 2);
        assert_eq!((frame[0].0, frame[0].1, frame[0].2.len()), (22, 22, 22 * 22 * 4));
        assert_eq!((frame[1].0, frame[1].1, frame[1].2.len()), (44, 44, 44 * 44 * 4));
    }
    // The top-left pixel of frame 0 lies on the stripe.
    assert_eq!(&frames[0][0].2[0..4], &[255, 255, 255, 255]);
    assert_eq!(&frames[1][0].2[0..4], &[255, 30, 90, 200]);
}
