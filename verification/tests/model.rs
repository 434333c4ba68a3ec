use taskbar::config::Config;
use taskbar::menu::MenuTree;
use taskbar::model::{announces_change, snapshot, update, update_all, Effect, Event, State};
use taskbar::props::PropValue;
use taskbar::sni::{ItemProps, ServiceRef, Status};

fn service(name: &str) -> ServiceRef {
    ServiceRef {
        bus_name: name.to_owned(),
        object_path: "/StatusNotifierItem".to_owned(),
    }
}

fn props(id: &str) -> ItemProps {
    ItemProps::default().with_property("Id", PropValue::Str(id.to_owned()))
}

fn registered(state: State, name: &str, id: &str) -> (State, Vec<Effect>) {
    update(
        state,
        Event::Registered {
            service: service(name),
            props: props(id),
        },
    )
}

#[test]
fn registering_bumps_the_revision_and_emits() {
    let (state, effects) = registered(State::default(), ":1.1", "steam");
    assert_eq!(state.items.len(), 1);
    assert_eq!(state.items[0].key.as_str(), "steam");
    assert_eq!(state.revision, 1);
    assert_eq!(effects, vec![Effect::ItemsChanged { revision: 1 }]);
}

#[test]
fn colliding_ids_get_unique_keys() {
    let (state, _) = registered(State::default(), ":1.1", "app");
    let (state, _) = registered(state, ":1.2", "app");
    let keys: Vec<_> = state.items.iter().map(|i| i.key.as_str()).collect();
    assert_eq!(keys, vec!["app", "app#2"]);
}

#[test]
fn empty_ids_fall_back_to_the_title_or_a_placeholder() {
    let (state, _) = registered(State::default(), ":1.1", "");
    assert_eq!(state.items[0].key.as_str(), "item");
}

#[test]
fn vanishing_items_are_removed_once() {
    let (state, _) = registered(State::default(), ":1.1", "steam");
    let key = state.items[0].key.clone();

    let (state, effects) = update(state, Event::Vanished(key.clone()));
    assert!(state.items.is_empty());
    assert_eq!(effects, vec![Effect::ItemsChanged { revision: 2 }]);

    let (state, effects) = update(state, Event::Vanished(key));
    assert!(state.items.is_empty(), "idempotent");
    assert!(effects.is_empty(), "no news is no effect");
}

#[test]
fn unchanged_properties_are_not_announced() {
    let (state, _) = registered(State::default(), ":1.1", "steam");
    let key = state.items[0].key.clone();

    let (state, effects) = update(
        state,
        Event::PropsUpdated {
            key: key.clone(),
            props: props("steam"),
        },
    );
    assert_eq!(state.revision, 1);
    assert!(effects.is_empty());

    let (state, effects) = update(
        state,
        Event::PropsUpdated {
            key,
            props: props("steam").with_property("Title", PropValue::Str("Steam".to_owned())),
        },
    );
    assert_eq!(state.revision, 2);
    assert_eq!(effects, vec![Effect::ItemsChanged { revision: 2 }]);
}

#[test]
fn menu_updates_only_announce_the_menu() {
    let (state, _) = registered(State::default(), ":1.1", "steam");
    let key = state.items[0].key.clone();

    let (state, effects) = update(
        state,
        Event::MenuUpdated {
            key: key.clone(),
            menu: Some(MenuTree {
                revision: 1,
                ..MenuTree::default()
            }),
        },
    );
    assert_eq!(effects, vec![Effect::MenuChanged { key }]);
    assert_eq!(state.revision, 1, "the icon strip did not change");
}

#[test]
fn re_registration_replaces_the_old_incarnation() {
    let (state, _) = registered(State::default(), ":1.1", "steam");
    let (state, _) = registered(state, ":1.1", "steam");
    assert_eq!(state.items.len(), 1);
}

#[test]
fn config_changes_are_normalised_persisted_and_announced() {
    let (state, effects) = update(
        State::default(),
        Event::ConfigUpdated(Config {
            icon_size: 999,
            hidden: vec!["steam".to_owned()],
            ..Config::default()
        }),
    );

    assert_eq!(state.config.icon_size, 128);
    assert!(state.config.is_hidden("steam"));
    assert!(
        effects.contains(&Effect::PersistConfig(state.config.clone())),
        "the config is written back: {effects:?}"
    );
    assert!(
        effects.iter().any(|e| matches!(e, Effect::ConfigChanged { .. })),
        "clients are told: {effects:?}"
    );
}

#[test]
fn snapshot_skips_hidden_and_passive_items() {
    let (state, _) = registered(State::default(), ":1.1", "steam");
    let (state, _) = registered(state, ":1.2", "discord");
    let (mut state, _) = registered(state, ":1.3", "hidden-app");

    state.item_mut("hidden-app").unwrap().props.status = Status::Passive;
    state.config = state.config.with_hidden("discord", true);

    let view = snapshot(&state, 22);
    let keys: Vec<_> = view.iter().map(|i| i.key.as_str()).collect();
    assert_eq!(keys, vec!["steam"]);
}

#[test]
fn update_all_folds_a_batch() {
    let (state, effects) = update_all(
        State::default(),
        vec![
            Event::Registered {
                service: service(":1.1"),
                props: props("steam"),
            },
            Event::Registered {
                service: service(":1.2"),
                props: props("discord"),
            },
        ],
    );
    assert_eq!(state.items.len(), 2);
    assert_eq!(effects.len(), 2);
}

#[test]
fn a_third_collision_takes_the_next_free_suffix() {
    let (state, _) = registered(State::default(), ":1.1", "app");
    let (state, _) = registered(state, ":1.2", "app");
    let (state, _) = registered(state, ":1.3", "app");
    let keys: Vec<_> = state.items.iter().map(|i| i.key.as_str()).collect();
    assert_eq!(keys, vec!["app", "app#2", "app#3"]);
}

#[test]
fn keys_are_trimmed_and_control_characters_replaced() {
    let (state, _) = registered(State::default(), ":1.1", "  my\tapp\n ");
    assert_eq!(state.items[0].key.as_str(), "my_app");
}

#[test]
fn the_title_stands_in_for_a_missing_id() {
    let props = ItemProps::default().with_property("Title", PropValue::Str("Music".to_owned()));
    let (state, _) = update(
        State::default(),
        Event::Registered {
            service: service(":1.4"),
            props,
        },
    );
    assert_eq!(state.items[0].key.as_str(), "Music");
}

#[test]
fn re_registering_keeps_the_newest_properties_last() {
    let (state, _) = registered(State::default(), ":1.1", "old");
    let (state, _) = registered(state, ":1.2", "other");
    let (state, _) = registered(state, ":1.1", "new");
    let keys: Vec<_> = state.items.iter().map(|i| i.key.as_str()).collect();
    assert_eq!(keys, vec!["other", "new"]);
}

#[test]
fn unknown_keys_are_ignored_by_updates() {
    let (state, _) = registered(State::default(), ":1.1", "steam");
    let before = state.clone();
    let (state, effects) = update(
        state,
        Event::PropsUpdated {
            key: taskbar::model::Key::new("nobody"),
            props: props("x"),
        },
    );
    assert_eq!(state, before);
    assert!(effects.is_empty());
    let (state, effects) = update(
        state,
        Event::MenuUpdated {
            key: taskbar::model::Key::new("nobody"),
            menu: None,
        },
    );
    assert_eq!(state, before);
    assert!(effects.is_empty());
}

#[test]
fn an_unchanged_config_is_announced_but_not_persisted() {
    let (state, effects) = update(State::default(), Event::ConfigUpdated(Config::default()));
    assert_eq!(effects, vec![Effect::ItemsChanged { revision: 1 }]);
    assert_eq!(state.revision, 1);
}

#[test]
fn a_changed_config_is_announced_then_persisted() {
    let (state, effects) = update(
        State::default(),
        Event::ConfigUpdated(Config {
            show_when_empty: true,
            ..Config::default()
        }),
    );
    assert_eq!(
        effects,
        vec![
            Effect::ItemsChanged { revision: 1 },
            Effect::ConfigChanged { revision: 1 },
            Effect::PersistConfig(state.config.clone()),
        ]
    );
}

#[test]
fn item_lookup_finds_the_first_match() {
    let (state, _) = registered(State::default(), ":1.1", "steam");
    assert_eq!(state.item("steam").map(|i| i.service.bus_name.as_str()), Some(":1.1"));
    assert!(state.item("nope").is_none());
    assert_eq!(state.allocate_key("steam").as_str(), "steam#2");
    assert_eq!(state.allocate_key("   ").as_str(), "item");
}

#[test]
fn a_restarted_application_gets_its_key_back() {
    let (state, _) = registered(State::default(), ":1.1", "steam");
    let (state, _) = registered(state, ":1.2", "steam");
    assert_eq!(state.items[1].key.as_str(), "steam#2");
    let first = state_key(&state, 0);
    let (state, _) = update(state, Event::Vanished(first));
    let (state, _) = registered(state, ":1.9", "steam");
    assert_eq!(state.items.last().map(|item| item.key.as_str()), Some("steam"));
}

fn state_key(state: &State, index: usize) -> taskbar::model::Key {
    state.items[index].key.clone()
}

#[test]
fn only_changes_to_the_strip_move_the_revision() {
    let (state, _) = registered(State::default(), ":1.1", "steam");
    let key = state_key(&state, 0);
    assert!(announces_change(&state, &Event::Registered { service: service(":1.2"), props: props("x") }));
    assert!(announces_change(&state, &Event::Vanished(key.clone())));
    assert!(!announces_change(&state, &Event::Vanished(taskbar::model::Key::new("nobody"))));
    assert!(!announces_change(&state, &Event::PropsUpdated { key: key.clone(), props: props("steam") }));
    assert!(announces_change(&state, &Event::PropsUpdated { key: key.clone(), props: props("other") }));
    assert!(!announces_change(&state, &Event::MenuUpdated { key: key.clone(), menu: Some(MenuTree::default()) }));
    assert!(announces_change(&state, &Event::ConfigUpdated(Config::default())));

    let mut full = state;
    full.revision = u64::MAX;
    let (full, effects) = update(full, Event::MenuUpdated { key, menu: Some(MenuTree::default()) });
    assert_eq!(full.revision, u64::MAX);
    assert_eq!(effects.len(), 1);
}

#[test]
fn a_batch_is_its_first_event_then_the_rest() {
    let first = Event::Registered { service: service(":1.1"), props: props("steam") };
    let rest = vec![
        Event::Registered { service: service(":1.2"), props: props("discord") },
        Event::Registered { service: service(":1.1"), props: props("steam") },
    ];
    let mut all = vec![Event::Registered { service: service(":1.1"), props: props("steam") }];
    all.extend(vec![
        Event::Registered { service: service(":1.2"), props: props("discord") },
        Event::Registered { service: service(":1.1"), props: props("steam") },
    ]);
    let (whole, whole_effects) = update_all(State::default(), all);
    let (s1, mut effects) = update(State::default(), first);
    let (s2, more) = update_all(s1, rest);
    effects.extend(more);
    assert_eq!(whole, s2);
    assert_eq!(whole_effects, effects);
    assert_eq!(whole.items.len(), 2);
    assert_ne!(whole.items[0].service, whole.items[1].service);
    assert_eq!(update_all(State::default(), Vec::new()), (State::default(), Vec::new()));
}
